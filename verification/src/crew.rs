//! Crews: who is speaking, who is aboard, and how work is handed over and
//! brought to an end.
use vstd::prelude::*;

use crate::fleet::{attention_of, crew_attention, crew_work_unsettled, work_unsettled};
use crate::model::{CrewAttention, CrewWorkPhase, SessionPhase, SessionSource, TerminalSession};
use crate::ordered::{text_map, OrderedMap};
use crate::workflow::AgentSelector;
use crate::text::{concat3, concat4, concat5, opt, opt_clone, opt_is, starts, str_eq, str_starts, strs};

verus! {

/// Who a crew command says it comes from.
#[derive(Debug, Clone, PartialEq, Eq)]
pub struct CrewCommandContext {
    pub crew_id: Option<String>,
    pub namespace: Option<String>,
    pub convoy: Option<String>,
    pub vessel_ref: Option<String>,
    pub role: Option<String>,
}

/// Who a crew command comes from: everything but the crew id is known.
#[derive(Debug, PartialEq, Eq)]
pub struct CrewRoutingContext {
    pub command_context: CrewCommandContext,
    pub session_name: Option<String>,
    pub convoy: String,
}

/// `r` says that a command comes from a crew member.
pub open spec fn routed_to(
    r: CrewRoutingContext,
    namespace: Seq<char>,
    convoy: Seq<char>,
    vessel_ref: Seq<char>,
    role: Seq<char>,
    session: Option<Seq<char>>,
) -> bool {
    &&& r.command_context.crew_id is None
    &&& opt(r.command_context.namespace) == Some(namespace)
    &&& opt(r.command_context.convoy) == Some(convoy)
    &&& opt(r.command_context.vessel_ref) == Some(vessel_ref)
    &&& opt(r.command_context.role) == Some(role)
    &&& opt(r.session_name) == session
    &&& r.convoy@ == convoy
}

/// Whether a session runs the crew member of an id.
pub open spec fn runs_crew(s: TerminalSession, crew_id: Seq<char>) -> bool {
    s.status matches Some(status) && (status.crew matches Some(crew) && crew.id@ == crew_id)
}

/// Where the session of a crew member stands, or the number of sessions.
pub open spec fn crew_at(sessions: Seq<TerminalSession>, crew_id: Seq<char>) -> int
    decreases sessions.len(),
{
    if sessions.len() == 0 || runs_crew(sessions[0], crew_id) {
        0
    } else {
        1 + crew_at(sessions.drop_first(), crew_id)
    }
}

/// Whether a session is the caller's.
pub open spec fn is_callers(s: TerminalSession, convoy: Seq<char>, vessel_ref: Seq<char>, role: Seq<char>) -> bool {
    &&& s.role@ == role
    &&& opt(s.labels.vessel_ref) == Some(vessel_ref) || (s.source matches SessionSource::Agent {
        namespace,
        convoy: c,
        vessel_ref: v,
    } && c@ == convoy && v@ == vessel_ref)
}

/// Where the caller's session stands, or the number of sessions.
pub open spec fn caller_at(sessions: Seq<TerminalSession>, convoy: Seq<char>, vessel_ref: Seq<char>, role: Seq<char>) -> int
    decreases sessions.len(),
{
    if sessions.len() == 0 || is_callers(sessions[0], convoy, vessel_ref, role) {
        0
    } else {
        1 + caller_at(sessions.drop_first(), convoy, vessel_ref, role)
    }
}

/// `r` is who a crew command comes from, or why that is not known.
pub open spec fn crew_routing(
    r: Result<CrewRoutingContext, String>,
    requested: CrewCommandContext,
    served: Seq<char>,
    sessions: Seq<TerminalSession>,
) -> bool {
    let namespace = match requested.namespace {
        Some(namespace) => namespace@,
        None => served,
    };
    if namespace != served {
        r matches Err(e) && e@ == "crew namespace `"@ + namespace + "` is not served by this daemon"@
    } else if requested.crew_id is Some {
        let id = requested.crew_id->0@;
        let at = crew_at(sessions, id);
        if at >= sessions.len() {
            r matches Err(e) && e@ == "unknown FLOTILLA_CREW_ID `"@ + id + "`"@
        } else {
            match sessions[at].source {
                SessionSource::Agent { namespace: _, convoy, vessel_ref } => r matches Ok(c) && routed_to(
                    c,
                    namespace,
                    convoy@,
                    vessel_ref@,
                    sessions[at].role@,
                    Some(sessions[at].name@),
                ),
                SessionSource::Tool => r matches Err(e) && e@ == "crew identity `"@ + id
                    + "` belongs to a non-agent process"@,
            }
        }
    } else {
        match (requested.convoy, requested.vessel_ref, requested.role) {
            (Some(convoy), Some(vessel_ref), Some(role)) => {
                let at = caller_at(sessions, convoy@, vessel_ref@, role@);
                r matches Ok(c) && routed_to(
                    c,
                    namespace,
                    convoy@,
                    vessel_ref@,
                    role@,
                    if at < sessions.len() {
                        Some(sessions[at].name@)
                    } else {
                        None
                    },
                )
            },
            _ => r matches Err(e) && e@
                == "crew context requires FLOTILLA_CREW_ID or --convoy, --vessel-ref, and --role"@,
        }
    }
}

fn find_crew(sessions: &Vec<TerminalSession>, crew_id: &str) -> (r: usize)
    ensures
        r == crew_at(sessions@, crew_id@),
        r <= sessions@.len(),
{
    let mut i: usize = 0;
    assert(sessions@.skip(0) =~= sessions@);
    while i < sessions.len()
        invariant
            i <= sessions@.len(),
            crew_at(sessions@, crew_id@) == i + crew_at(sessions@.skip(i as int), crew_id@),
        decreases sessions.len() - i,
    {
        assert(sessions@.skip(i as int)[0] == sessions@[i as int]);
        assert(sessions@.skip(i as int).drop_first() =~= sessions@.skip(i + 1));
        let found = match &sessions[i].status {
            Some(status) => match &status.crew {
                Some(crew) => str_eq(crew.id.as_str(), crew_id),
                None => false,
            },
            None => false,
        };
        if found {
            return i;
        }
        i = i + 1;
    }
    i
}

fn find_caller(sessions: &Vec<TerminalSession>, convoy: &str, vessel_ref: &str, role: &str) -> (r: usize)
    ensures
        r == caller_at(sessions@, convoy@, vessel_ref@, role@),
        r <= sessions@.len(),
{
    let mut i: usize = 0;
    assert(sessions@.skip(0) =~= sessions@);
    while i < sessions.len()
        invariant
            i <= sessions@.len(),
            caller_at(sessions@, convoy@, vessel_ref@, role@) == i + caller_at(
                sessions@.skip(i as int),
                convoy@,
                vessel_ref@,
                role@,
            ),
        decreases sessions.len() - i,
    {
        let s = &sessions[i];
        assert(sessions@.skip(i as int)[0] == *s);
        assert(sessions@.skip(i as int).drop_first() =~= sessions@.skip(i + 1));
        let by_source = match &s.source {
            SessionSource::Agent { namespace: _, convoy: c, vessel_ref: v } => str_eq(c.as_str(), convoy) && str_eq(
                v.as_str(),
                vessel_ref,
            ),
            SessionSource::Tool => false,
        };
        if str_eq(s.role.as_str(), role) && (opt_is(&s.labels.vessel_ref, vessel_ref) || by_source) {
            return i;
        }
        i = i + 1;
    }
    i
}

fn routing(namespace: &str, convoy: &str, vessel_ref: &str, role: &str, session_name: Option<String>) -> (r: CrewRoutingContext)
    ensures
        routed_to(r, namespace@, convoy@, vessel_ref@, role@, opt(session_name)),
{
    CrewRoutingContext {
        command_context: CrewCommandContext {
            crew_id: None,
            namespace: Some(namespace.to_owned()),
            convoy: Some(convoy.to_owned()),
            vessel_ref: Some(vessel_ref.to_owned()),
            role: Some(role.to_owned()),
        },
        session_name,
        convoy: convoy.to_owned(),
    }
}

/// Who a crew command comes from: the crew member of the id it gives, else the
/// one it describes.
pub fn resolve_crew_routing_context(
    requested: &CrewCommandContext,
    served_namespace: &str,
    sessions: &Vec<TerminalSession>,
) -> (r: Result<CrewRoutingContext, String>)
    ensures
        crew_routing(r, *requested, served_namespace@, sessions@),
{
    let namespace = match &requested.namespace {
        Some(namespace) => namespace.as_str(),
        None => served_namespace,
    };
    if !str_eq(namespace, served_namespace) {
        return Err(concat3("crew namespace `", namespace, "` is not served by this daemon"));
    }
    match &requested.crew_id {
        Some(id) => {
            let at: usize = find_crew(sessions, id.as_str());
            if at >= sessions.len() {
                return Err(concat3("unknown FLOTILLA_CREW_ID `", id.as_str(), "`"));
            }
            let s = &sessions[at];
            match &s.source {
                SessionSource::Agent { namespace: _, convoy, vessel_ref } => Ok(
                    routing(namespace, convoy.as_str(), vessel_ref.as_str(), s.role.as_str(), Some(s.name.clone())),
                ),
                SessionSource::Tool => Err(
                    concat3("crew identity `", id.as_str(), "` belongs to a non-agent process"),
                ),
            }
        },
        None => match (&requested.convoy, &requested.vessel_ref, &requested.role) {
            (Some(convoy), Some(vessel_ref), Some(role)) => {
                let at: usize = find_caller(sessions, convoy.as_str(), vessel_ref.as_str(), role.as_str());
                let session_name = if at < sessions.len() {
                    Some(sessions[at].name.clone())
                } else {
                    None
                };
                Ok(routing(namespace, convoy.as_str(), vessel_ref.as_str(), role.as_str(), session_name))
            },
            _ => Err(
                "crew context requires FLOTILLA_CREW_ID or --convoy, --vessel-ref, and --role".to_owned(),
            ),
        },
    }
}

/// A crew member, with the vessel it is aboard.
#[derive(Debug, PartialEq, Eq)]
pub struct ResolvedCrewContext {
    pub namespace: String,
    pub convoy: String,
    pub vessel_ref: String,
    pub vessel: String,
    pub caller_role: String,
}

/// A crew member is aboard a vessel of its own convoy. `vessel_convoy` and
/// `vessel` are what is recorded of the vessel.
pub fn resolved_crew_context(
    namespace: &str,
    convoy: &str,
    vessel_ref: &str,
    caller_role: &str,
    vessel_convoy: &str,
    vessel: &str,
) -> (r: Result<ResolvedCrewContext, String>)
    ensures
        match r {
            Ok(c) => vessel_convoy@ == convoy@ && c.namespace@ == namespace@ && c.convoy@ == convoy@ && c.vessel_ref@
                == vessel_ref@ && c.vessel@ == vessel@ && c.caller_role@ == caller_role@,
            Err(e) => vessel_convoy@ != convoy@ && e@ == "vessel `"@ + vessel_ref@ + "` does not belong to convoy `"@
                + convoy@ + "`"@,
        },
{
    if !str_eq(vessel_convoy, convoy) {
        return Err(concat5("vessel `", vessel_ref, "` does not belong to convoy `", convoy, "`"));
    }
    Ok(
        ResolvedCrewContext {
            namespace: namespace.to_owned(),
            convoy: convoy.to_owned(),
            vessel_ref: vessel_ref.to_owned(),
            vessel: vessel.to_owned(),
            caller_role: caller_role.to_owned(),
        },
    )
}

/// What is recorded of a crew member's work.
#[derive(Debug, PartialEq, Eq)]
pub struct CrewDuty {
    pub vessel: String,
    pub role: String,
    pub phase: CrewWorkPhase,
}

/// The phase of a crew member's work, where it is recorded. A member's work is
/// recorded once.
pub open spec fn work_phase(work: Seq<CrewDuty>, vessel: Seq<char>, role: Seq<char>) -> Option<CrewWorkPhase>
    decreases work.len(),
{
    if work.len() == 0 {
        None
    } else if work[0].vessel@ == vessel && work[0].role@ == role {
        Some(work[0].phase)
    } else {
        work_phase(work.drop_first(), vessel, role)
    }
}

/// What phase the work of a crew member is in.
pub fn crew_work_phase(work: &Vec<CrewDuty>, vessel: &str, role: &str) -> (r: Option<CrewWorkPhase>)
    ensures
        r == work_phase(work@, vessel@, role@),
{
    let mut i: usize = 0;
    assert(work@.skip(0) =~= work@);
    while i < work.len()
        invariant
            i <= work@.len(),
            work_phase(work@, vessel@, role@) == work_phase(work@.skip(i as int), vessel@, role@),
        decreases work.len() - i,
    {
        assert(work@.skip(i as int)[0] == work@[i as int]);
        assert(work@.skip(i as int).drop_first() =~= work@.skip(i + 1));
        if str_eq(work[i].vessel.as_str(), vessel) && str_eq(work[i].role.as_str(), role) {
            return Some(work[i].phase);
        }
        i = i + 1;
    }
    None
}

/// Only a crew member that has work can bring it to an end.
pub fn ensure_crew_work_is_defined(work: &Vec<CrewDuty>, context: &ResolvedCrewContext) -> (r: Result<(), String>)
    ensures
        match r {
            Ok(()) => work_phase(work@, context.vessel@, context.caller_role@) is Some,
            Err(e) => work_phase(work@, context.vessel@, context.caller_role@) is None && e@ == "crew work for role `"@
                + context.caller_role@ + "` is not defined on vessel `"@ + context.vessel@ + "`"@,
        },
{
    match crew_work_phase(work, context.vessel.as_str(), context.caller_role.as_str()) {
        Some(_) => Ok(()),
        None => Err(
            concat5(
                "crew work for role `",
                context.caller_role.as_str(),
                "` is not defined on vessel `",
                context.vessel.as_str(),
                "`",
            ),
        ),
    }
}

/// A member of a vessel's crew, as the workflow has it.
#[derive(Debug, PartialEq, Eq)]
pub struct CrewProcess {
    pub role: String,
    /// Which agent plays the role, where an agent does.
    pub agent: Option<AgentSelector>,
    /// What an agent is told, where it is told anything.
    pub prompt: Option<String>,
    pub labels: Vec<(String, String)>,
}

/// A vessel of a running convoy.
#[derive(Debug, PartialEq, Eq)]
pub struct CrewedVessel {
    pub name: String,
    pub crew: Vec<CrewProcess>,
    /// The credentials that its crew has.
    pub credential_refs: Vec<String>,
    /// The repositories that each of them may be used for, where limited.
    pub credential_scopes: OrderedMap<Vec<String>>,
}

/// Where a vessel stands, or the number of vessels.
pub open spec fn vessel_at(vessels: Seq<CrewedVessel>, name: Seq<char>) -> int
    decreases vessels.len(),
{
    if vessels.len() == 0 || vessels[0].name@ == name {
        0
    } else {
        1 + vessel_at(vessels.drop_first(), name)
    }
}

/// What is said of a vessel that is not there.
pub open spec fn vessel_missing(vessel: Seq<char>, convoy: Seq<char>) -> Seq<char> {
    "vessel `"@ + vessel + "` is missing from convoy `"@ + convoy + "`"@
}

fn find_vessel(vessels: &Vec<CrewedVessel>, context: &ResolvedCrewContext) -> (r: Result<usize, String>)
    ensures
        match r {
            Ok(i) => i == vessel_at(vessels@, context.vessel@) && i < vessels@.len(),
            Err(e) => vessel_at(vessels@, context.vessel@) >= vessels@.len() && e@ == vessel_missing(
                context.vessel@,
                context.convoy@,
            ),
        },
{
    let mut i: usize = 0;
    assert(vessels@.skip(0) =~= vessels@);
    while i < vessels.len()
        invariant
            i <= vessels@.len(),
            vessel_at(vessels@, context.vessel@) == i + vessel_at(vessels@.skip(i as int), context.vessel@),
        decreases vessels.len() - i,
    {
        assert(vessels@.skip(i as int)[0] == vessels@[i as int]);
        assert(vessels@.skip(i as int).drop_first() =~= vessels@.skip(i + 1));
        if str_eq(vessels[i].name.as_str(), context.vessel.as_str()) {
            return Ok(i);
        }
        i = i + 1;
    }
    Err(
        concat5(
            "vessel `",
            context.vessel.as_str(),
            "` is missing from convoy `",
            context.convoy.as_str(),
            "`",
        ),
    )
}

/// A member of a crew, as it is listed.
#[derive(Debug, PartialEq, Eq)]
pub struct CrewListMember {
    pub role: String,
    pub kind: String,
    pub state: String,
    pub attention: Option<CrewAttention>,
    pub adapter: Option<String>,
    pub model: Option<String>,
    pub stance: Option<String>,
}

/// The last session of a role, where there is one.
pub open spec fn session_of_role(sessions: Seq<TerminalSession>, role: Seq<char>) -> Option<TerminalSession>
    decreases sessions.len(),
{
    if sessions.len() == 0 {
        None
    } else if sessions.last().role@ == role {
        Some(sessions.last())
    } else {
        session_of_role(sessions.drop_last(), role)
    }
}

/// The state a member is listed with.
pub open spec fn member_state(phase: Option<SessionPhase>, is_agent: bool) -> Seq<char> {
    match phase {
        Some(SessionPhase::Starting) => "starting"@,
        Some(SessionPhase::Running) => "active"@,
        Some(SessionPhase::Stopped) => "stopped"@,
        Some(SessionPhase::Failed) => "failed"@,
        None => if is_agent {
            "latent"@
        } else {
            "pending"@
        },
    }
}

/// `m` lists a member.
pub open spec fn lists_member(
    m: CrewListMember,
    process: CrewProcess,
    session: Option<TerminalSession>,
    phase: Option<CrewWorkPhase>,
) -> bool {
    let unsettled = match phase {
        Some(phase) => work_unsettled(phase),
        None => true,
    };
    let status = match session {
        Some(s) => s.status,
        None => None,
    };
    let crew = match status {
        Some(status) => status.crew,
        None => None,
    };
    &&& m.role@ == process.role@
    &&& m.kind@ == (if process.agent is Some {
        "agent"@
    } else {
        "tool"@
    })
    &&& m.state@ == member_state(
        match status {
            Some(status) => Some(status.phase),
            None => None,
        },
        process.agent is Some,
    )
    &&& m.attention == attention_of(status, unsettled)
    &&& match crew {
        Some(crew) => opt(m.adapter) == Some(crew.adapter@) && opt(m.model) == opt(crew.model) && opt(m.stance) == Some(
            crew.stance@,
        ),
        None => m.adapter is None && m.model is None && m.stance is None,
    }
}

fn find_role(sessions: &Vec<TerminalSession>, role: &str) -> (r: Option<usize>)
    ensures
        match r {
            Some(i) => i < sessions@.len() && session_of_role(sessions@, role@) == Some(sessions@[i as int]),
            None => session_of_role(sessions@, role@) is None,
        },
{
    let mut n: usize = sessions.len();
    assert(sessions@.take(n as int) =~= sessions@);
    while n > 0
        invariant
            n <= sessions@.len(),
            session_of_role(sessions@, role@) == session_of_role(sessions@.take(n as int), role@),
        decreases n,
    {
        assert(sessions@.take(n as int).last() == sessions@[n - 1]);
        assert(sessions@.take(n as int).drop_last() =~= sessions@.take(n - 1));
        if str_eq(sessions[n - 1].role.as_str(), role) {
            return Some(n - 1);
        }
        n = n - 1;
    }
    None
}

fn list_member(process: &CrewProcess, sessions: &Vec<TerminalSession>, phase: Option<CrewWorkPhase>) -> (m: CrewListMember)
    ensures
        lists_member(m, *process, session_of_role(sessions@, process.role@), phase),
{
    let unsettled = match phase {
        Some(phase) => crew_work_unsettled(phase),
        None => true,
    };
    let kind = if process.agent.is_some() {
        "agent"
    } else {
        "tool"
    };
    let mut m = CrewListMember {
        role: process.role.clone(),
        kind: kind.to_owned(),
        state: if process.agent.is_some() {
            "latent".to_owned()
        } else {
            "pending".to_owned()
        },
        attention: None,
        adapter: None,
        model: None,
        stance: None,
    };
    match find_role(sessions, process.role.as_str()) {
        None => {},
        Some(i) => {
            let s = &sessions[i];
            m.attention = crew_attention(&s.status, unsettled);
            match &s.status {
                None => {},
                Some(status) => {
                    let state = match status.phase {
                        SessionPhase::Starting => "starting",
                        SessionPhase::Running => "active",
                        SessionPhase::Stopped => "stopped",
                        SessionPhase::Failed => "failed",
                    };
                    m.state = state.to_owned();
                    match &status.crew {
                        Some(crew) => {
                            m.adapter = Some(crew.adapter.clone());
                            m.model = opt_clone(&crew.model);
                            m.stance = Some(crew.stance.clone());
                        },
                        None => {},
                    }
                },
            }
        },
    }
    m
}

/// The crew of a vessel.
#[derive(Debug, PartialEq, Eq)]
pub struct CrewList {
    pub convoy: String,
    pub vessel_ref: String,
    pub vessel: String,
    pub members: Vec<CrewListMember>,
}

/// `r` lists the crew of a vessel, in the order of the workflow.
pub open spec fn crew_listed(
    r: Result<CrewList, String>,
    context: ResolvedCrewContext,
    vessels: Seq<CrewedVessel>,
    sessions: Seq<TerminalSession>,
    work: Seq<CrewDuty>,
) -> bool {
    let at = vessel_at(vessels, context.vessel@);
    if at >= vessels.len() {
        r matches Err(e) && e@ == vessel_missing(context.vessel@, context.convoy@)
    } else {
        let crew = vessels[at].crew@;
        &&& r matches Ok(list)
        &&& list.convoy@ == context.convoy@
        &&& list.vessel_ref@ == context.vessel_ref@
        &&& list.vessel@ == context.vessel@
        &&& list.members@.len() == crew.len()
        &&& forall|i: int|
            0 <= i < crew.len() ==> lists_member(
                #[trigger] list.members@[i],
                crew[i],
                session_of_role(sessions, crew[i].role@),
                work_phase(work, context.vessel@, crew[i].role@),
            )
    }
}

/// Lists the crew of a vessel. `sessions` are those of the vessel, and `work`
/// what is recorded of its work.
pub fn list_crew(
    context: &ResolvedCrewContext,
    vessels: &Vec<CrewedVessel>,
    sessions: &Vec<TerminalSession>,
    work: &Vec<CrewDuty>,
) -> (r: Result<CrewList, String>)
    ensures
        crew_listed(r, *context, vessels@, sessions@, work@),
{
    let at: usize = match find_vessel(vessels, context) {
        Err(e) => {
            return Err(e);
        },
        Ok(at) => at,
    };
    let crew = &vessels[at].crew;
    let mut list: Vec<CrewListMember> = Vec::new();
    let mut i: usize = 0;
    while i < crew.len()
        invariant
            i <= crew@.len(),
            list@.len() == i,
            forall|k: int|
                0 <= k < i ==> lists_member(
                    #[trigger] list@[k],
                    crew@[k],
                    session_of_role(sessions@, crew@[k].role@),
                    work_phase(work@, context.vessel@, crew@[k].role@),
                ),
        decreases crew.len() - i,
    {
        let phase = crew_work_phase(work, context.vessel.as_str(), crew[i].role.as_str());
        list.push(list_member(&crew[i], sessions, phase));
        i = i + 1;
    }
    Ok(
        CrewList {
            convoy: context.convoy.clone(),
            vessel_ref: context.vessel_ref.clone(),
            vessel: context.vessel.clone(),
            members: list,
        },
    )
}

/// A brief that waits for a crew member's turn to end.
#[derive(Debug, PartialEq, Eq)]
pub struct PendingBrief {
    pub vessel: String,
    pub role: String,
    pub content: String,
}

/// What is done where a crew member says that its work is done.
#[derive(Debug, PartialEq, Eq)]
#[allow(inconsistent_fields)]
pub enum CompleteStep {
    Fail { message: String },
    /// The brief that waited is its next work.
    DeliverPending { session_name: String, content: String },
    /// Its work is done; a completion noted on its session is cleared.
    MarkCompleted { clear_session: Option<String> },
}

/// Whether a brief waits for a crew member.
pub open spec fn waits_for(pending: Option<PendingBrief>, vessel: Seq<char>, role: Seq<char>) -> bool {
    pending matches Some(p) && p.vessel@ == vessel && p.role@ == role
}

/// `r` is what is done where a crew member says that its work is done.
pub open spec fn completion_decided(
    r: CompleteStep,
    context: ResolvedCrewContext,
    session_name: Option<Seq<char>>,
    work: Seq<CrewDuty>,
    pending: Option<PendingBrief>,
) -> bool {
    if work_phase(work, context.vessel@, context.caller_role@) is None {
        r matches CompleteStep::Fail { message } && message@ == "crew work for role `"@ + context.caller_role@
            + "` is not defined on vessel `"@ + context.vessel@ + "`"@
    } else if waits_for(pending, context.vessel@, context.caller_role@) {
        match session_name {
            Some(name) => r matches CompleteStep::DeliverPending { session_name, content } && session_name@ == name
                && content@ == pending->0.content@,
            None => r matches CompleteStep::Fail { message } && message@ == "pending brief target `"@ + context.vessel@
                + "/"@ + context.caller_role@ + "` has no intact terminal session"@,
        }
    } else {
        r matches CompleteStep::MarkCompleted { clear_session } && opt(clear_session) == session_name
    }
}

/// A decision ledger is referred to by an address of the web.
pub fn check_decision_ledger(reference: &Option<String>) -> (r: Result<(), String>)
    ensures
        match r {
            Ok(()) => reference is None || starts(reference->0@, "https://"@) || starts(reference->0@, "http://"@),
            Err(e) => reference is Some && !starts(reference->0@, "https://"@) && !starts(reference->0@, "http://"@) && e@
                == "decision ledger reference must use an HTTP(S) URL"@,
        },
{
    match reference {
        None => Ok(()),
        Some(text) => {
            if str_starts(text.as_str(), "https://") || str_starts(text.as_str(), "http://") {
                Ok(())
            } else {
                Err("decision ledger reference must use an HTTP(S) URL".to_owned())
            }
        },
    }
}

/// Decides what is done where a crew member says that its work is done.
pub fn crew_complete_step(
    context: &ResolvedCrewContext,
    session_name: &Option<String>,
    work: &Vec<CrewDuty>,
    pending: &Option<PendingBrief>,
) -> (r: CompleteStep)
    ensures
        completion_decided(r, *context, opt(*session_name), work@, *pending),
{
    match ensure_crew_work_is_defined(work, context) {
        Err(message) => {
            return CompleteStep::Fail { message };
        },
        Ok(()) => {},
    }
    match pending {
        Some(p) => {
            if str_eq(p.vessel.as_str(), context.vessel.as_str()) && str_eq(p.role.as_str(), context.caller_role.as_str()) {
                return match session_name {
                    Some(name) => CompleteStep::DeliverPending {
                        session_name: name.clone(),
                        content: p.content.clone(),
                    },
                    None => CompleteStep::Fail {
                        message: concat5(
                            "pending brief target `",
                            context.vessel.as_str(),
                            "/",
                            context.caller_role.as_str(),
                            "` has no intact terminal session",
                        ),
                    },
                };
            }
        },
        None => {},
    }
    CompleteStep::MarkCompleted { clear_session: opt_clone(session_name) }
}

/// What is said where a handoff does not reach anyone.
pub fn crew_handoff_address_error(target: &str, vessel: &str) -> (r: String)
    ensures
        r@
            == "no such crew member in your vessel; crew messaging is intra-vessel and requires a different crew member (target `"@
            + target@ + "`, vessel `"@ + vessel@ + "`)"@,
{
    concat5(
        "no such crew member in your vessel; crew messaging is intra-vessel and requires a different crew member (target `",
        target,
        "`, vessel `",
        vessel,
        "`)",
    )
}

/// The message of a handoff, with who it comes from.
pub open spec fn handoff_text(context: ResolvedCrewContext, message: Seq<char>) -> Seq<char> {
    "handoff from "@ + context.caller_role@ + "@"@ + context.vessel@ + "\n\n"@ + message
}

pub fn crew_handoff_message(context: &ResolvedCrewContext, message: &str) -> (r: String)
    ensures
        r@ == handoff_text(*context, message@),
{
    let from = concat4("handoff from ", context.caller_role.as_str(), "@", context.vessel.as_str());
    concat3(from.as_str(), "\n\n", message)
}

/// Where a crew member stands, or the number of members.
pub open spec fn process_at(crew: Seq<CrewProcess>, role: Seq<char>) -> int
    decreases crew.len(),
{
    if crew.len() == 0 || crew[0].role@ == role {
        0
    } else {
        1 + process_at(crew.drop_first(), role)
    }
}

/// Who a handoff goes to.
#[derive(Debug, Clone, Copy, PartialEq, Eq, Structural)]
pub struct HandoffTarget {
    pub vessel_index: usize,
    pub crew_index: usize,
}

/// `r` is who a handoff goes to: an agent of the same crew other than the
/// caller, whose work has not failed.
pub open spec fn handoff_to(
    r: Result<HandoffTarget, String>,
    context: ResolvedCrewContext,
    target: Seq<char>,
    vessels: Seq<CrewedVessel>,
    work: Seq<CrewDuty>,
) -> bool {
    let at = vessel_at(vessels, context.vessel@);
    if at >= vessels.len() {
        r matches Err(e) && e@ == vessel_missing(context.vessel@, context.convoy@)
    } else {
        let crew = vessels[at].crew@;
        let k = process_at(crew, target);
        if k >= crew.len() || target == context.caller_role@ {
            r matches Err(e) && e@
                == "no such crew member in your vessel; crew messaging is intra-vessel and requires a different crew member (target `"@
                + target + "`, vessel `"@ + context.vessel@ + "`)"@
        } else if crew[k].agent is None {
            r matches Err(e) && e@ == "crew target `"@ + target + "` is a tool process and cannot receive a handoff"@
        } else if work_phase(work, context.vessel@, target) == Some(CrewWorkPhase::Failed) {
            r matches Err(e) && e@ == "crew target `"@ + target + "` has failed work and cannot receive a handoff"@
        } else {
            r matches Ok(t) && t.vessel_index == at && t.crew_index == k
        }
    }
}

fn find_process(crew: &Vec<CrewProcess>, role: &str) -> (r: usize)
    ensures
        r == process_at(crew@, role@),
        r <= crew@.len(),
{
    let mut i: usize = 0;
    assert(crew@.skip(0) =~= crew@);
    while i < crew.len()
        invariant
            i <= crew@.len(),
            process_at(crew@, role@) == i + process_at(crew@.skip(i as int), role@),
        decreases crew.len() - i,
    {
        assert(crew@.skip(i as int)[0] == crew@[i as int]);
        assert(crew@.skip(i as int).drop_first() =~= crew@.skip(i + 1));
        if str_eq(crew[i].role.as_str(), role) {
            return i;
        }
        i = i + 1;
    }
    i
}

/// Who a handoff goes to.
pub fn handoff_target(
    context: &ResolvedCrewContext,
    target: &str,
    vessels: &Vec<CrewedVessel>,
    work: &Vec<CrewDuty>,
) -> (r: Result<HandoffTarget, String>)
    ensures
        handoff_to(r, *context, target@, vessels@, work@),
{
    let at: usize = match find_vessel(vessels, context) {
        Err(e) => {
            return Err(e);
        },
        Ok(at) => at,
    };
    let crew = &vessels[at].crew;
    let k: usize = find_process(crew, target);
    if k >= crew.len() || str_eq(target, context.caller_role.as_str()) {
        return Err(crew_handoff_address_error(target, context.vessel.as_str()));
    }
    if crew[k].agent.is_none() {
        return Err(concat3("crew target `", target, "` is a tool process and cannot receive a handoff"));
    }
    match crew_work_phase(work, context.vessel.as_str(), target) {
        Some(CrewWorkPhase::Failed) => {
            return Err(concat3("crew target `", target, "` has failed work and cannot receive a handoff"));
        },
        _ => {},
    }
    Ok(HandoffTarget { vessel_index: at, crew_index: k })
}

/// What stands under the name of a session that a message goes to.
#[derive(Debug, PartialEq, Eq)]
#[allow(inconsistent_fields)]
pub enum TargetSession {
    Absent,
    Present { role: String, is_agent: bool, phase: Option<SessionPhase> },
    Unreadable { error: String },
}

/// How a handoff reaches its target.
#[derive(Debug, PartialEq, Eq)]
pub enum HandoffStep {
    /// Leave it with the session, and start that again where it stopped.
    Queue { restart: bool },
    /// Start a session for it, where the anchor runs.
    Launch { anchor: String },
    Fail { message: String },
}

/// `r` is how a handoff reaches its target.
pub open spec fn handoff_decided(
    r: HandoffStep,
    target: Seq<char>,
    vessel_ref: Seq<char>,
    existing: TargetSession,
    caller_session: Option<Seq<char>>,
    vessel_sessions: Seq<Seq<char>>,
) -> bool {
    let fails = |e: Seq<char>| r matches HandoffStep::Fail { message } && message@ == e;
    match existing {
        TargetSession::Present { role, is_agent, phase } => if phase == Some(SessionPhase::Failed) {
            fails("crew target `"@ + target + "` failed provisioning and cannot be revived"@)
        } else if !is_agent {
            fails("crew target `"@ + role@ + "` is not an agent session"@)
        } else {
            r == (HandoffStep::Queue { restart: phase == Some(SessionPhase::Stopped) })
        },
        TargetSession::Absent => match caller_session {
            Some(name) => r matches HandoffStep::Launch { anchor } && anchor@ == name,
            None => if vessel_sessions.len() > 0 {
                r matches HandoffStep::Launch { anchor } && anchor@ == vessel_sessions[0]
            } else {
                fails("vessel `"@ + vessel_ref + "` has no active session to anchor the handoff"@)
            },
        },
        TargetSession::Unreadable { error } => fails(error@),
    }
}

/// Decides how a handoff reaches its target. A session that is not there is
/// started beside the caller's, else beside any of the vessel.
pub fn handoff_step(
    target: &str,
    vessel_ref: &str,
    existing: &TargetSession,
    caller_session: &Option<String>,
    vessel_sessions: &Vec<String>,
) -> (r: HandoffStep)
    ensures
        handoff_decided(r, target@, vessel_ref@, *existing, opt(*caller_session), strs(vessel_sessions@)),
{
    assert(strs(vessel_sessions@).len() == vessel_sessions@.len());
    match existing {
        TargetSession::Present { role, is_agent, phase } => {
            let failed = match phase {
                Some(SessionPhase::Failed) => true,
                _ => false,
            };
            if failed {
                return HandoffStep::Fail {
                    message: concat3("crew target `", target, "` failed provisioning and cannot be revived"),
                };
            }
            if !*is_agent {
                return HandoffStep::Fail {
                    message: concat3("crew target `", role.as_str(), "` is not an agent session"),
                };
            }
            let restart = match phase {
                Some(SessionPhase::Stopped) => true,
                _ => false,
            };
            HandoffStep::Queue { restart }
        },
        TargetSession::Absent => match caller_session {
            Some(name) => HandoffStep::Launch { anchor: name.clone() },
            None => {
                if vessel_sessions.len() > 0 {
                    assert(strs(vessel_sessions@)[0] == vessel_sessions@[0]@);
                    HandoffStep::Launch { anchor: vessel_sessions[0].clone() }
                } else {
                    HandoffStep::Fail {
                        message: concat3("vessel `", vessel_ref, "` has no active session to anchor the handoff"),
                    }
                }
            },
        },
        TargetSession::Unreadable { error } => HandoffStep::Fail { message: error.clone() },
    }
}

/// A handoff reaches only an agent of the caller's own crew, and never the
/// caller itself.
pub proof fn law_handoffs_stay_in_the_crew(
    r: Result<HandoffTarget, String>,
    context: ResolvedCrewContext,
    target: Seq<char>,
    vessels: Seq<CrewedVessel>,
    work: Seq<CrewDuty>,
)
    requires
        handoff_to(r, context, target, vessels, work),
        r is Ok,
    ensures
        target != context.caller_role@,
        r matches Ok(t) && t.vessel_index < vessels.len() && vessels[t.vessel_index as int].name@ == context.vessel@ && (
        t.crew_index < vessels[t.vessel_index as int].crew@.len()
            && vessels[t.vessel_index as int].crew@[t.crew_index as int].role@ == target
            && vessels[t.vessel_index as int].crew@[t.crew_index as int].agent is Some),
{
    lemma_vessel_at(vessels, context.vessel@);
    let at = vessel_at(vessels, context.vessel@);
    lemma_process_at(vessels[at].crew@, target);
}

proof fn lemma_vessel_at(vessels: Seq<CrewedVessel>, name: Seq<char>)
    ensures
        0 <= vessel_at(vessels, name) <= vessels.len(),
        vessel_at(vessels, name) < vessels.len() ==> vessels[vessel_at(vessels, name)].name@ == name,
    decreases vessels.len(),
{
    if vessels.len() > 0 && vessels[0].name@ != name {
        lemma_vessel_at(vessels.drop_first(), name);
    }
}

proof fn lemma_process_at(crew: Seq<CrewProcess>, role: Seq<char>)
    ensures
        0 <= process_at(crew, role) <= crew.len(),
        process_at(crew, role) < crew.len() ==> crew[process_at(crew, role)].role@ == role,
    decreases crew.len(),
{
    if crew.len() > 0 && crew[0].role@ != role {
        lemma_process_at(crew.drop_first(), role);
    }
}

/// What a crew member that a handoff starts is told to do.
#[derive(Debug, PartialEq, Eq)]
pub enum CrewAssignment {
    Prompt { text: String },
    CarriedIssue,
    CarriedChangeRequest,
    Unassigned,
}

/// What a crew member is told: what the workflow says, else the issue or the
/// change request that the convoy carries.
pub fn handoff_assignment(prompt: &Option<String>, carries_issues: bool, carries_change_request: bool) -> (r: CrewAssignment)
    ensures
        match *prompt {
            Some(told) => r matches CrewAssignment::Prompt { text } && text@ == told@,
            None => r == if carries_issues {
                CrewAssignment::CarriedIssue
            } else if carries_change_request {
                CrewAssignment::CarriedChangeRequest
            } else {
                CrewAssignment::Unassigned
            },
        },
{
    match prompt {
        Some(told) => CrewAssignment::Prompt { text: told.clone() },
        None => {
            if carries_issues {
                CrewAssignment::CarriedIssue
            } else if carries_change_request {
                CrewAssignment::CarriedChangeRequest
            } else {
                CrewAssignment::Unassigned
            }
        },
    }
}

/// A member as a brief mentions it.
#[derive(Debug, PartialEq, Eq)]
pub struct CrewBriefMember {
    pub role: String,
    pub state: String,
    pub is_agent: bool,
}

/// `r` mentions the members, with the target as active.
pub open spec fn mentions(r: Seq<CrewBriefMember>, members: Seq<CrewListMember>, target: Seq<char>) -> bool {
    &&& r.len() == members.len()
    &&& forall|i: int|
        0 <= i < r.len() ==> (#[trigger] r[i]).role@ == members[i].role@ && r[i].state@ == (if members[i].role@ == target {
            "active"@
        } else {
            members[i].state@
        }) && r[i].is_agent == (members[i].kind@ == "agent"@)
}

/// The members as a brief for `target` mentions them.
pub fn handoff_members(members: &Vec<CrewListMember>, target: &str) -> (r: Vec<CrewBriefMember>)
    ensures
        mentions(r@, members@, target@),
{
    let mut r: Vec<CrewBriefMember> = Vec::new();
    let mut i: usize = 0;
    while i < members.len()
        invariant
            i <= members@.len(),
            mentions(r@, members@.take(i as int), target@),
        decreases members.len() - i,
    {
        let m = &members[i];
        let state = if str_eq(m.role.as_str(), target) {
            "active".to_owned()
        } else {
            m.state.clone()
        };
        let ghost before = r@;
        r.push(CrewBriefMember { role: m.role.clone(), state, is_agent: str_eq(m.kind.as_str(), "agent") });
        assert forall|k: int| 0 <= k < r@.len() implies (#[trigger] r@[k]).role@ == members@.take(i + 1)[k].role@ && r@[k].state@ == (
        if members@.take(i + 1)[k].role@ == target@ {
            "active"@
        } else {
            members@.take(i + 1)[k].state@
        }) && r@[k].is_agent == (members@.take(i + 1)[k].kind@ == "agent"@) by {
            if k < i {
                assert(r@[k] == before[k]);
                assert(members@.take(i as int)[k] == members@.take(i + 1)[k]);
            }
        }
        i = i + 1;
    }
    assert(members@.take(members@.len() as int) =~= members@);
    r
}

/// A checkout that a convoy adopted.
#[derive(Debug, PartialEq, Eq)]
pub struct AdoptedCheckoutPath {
    pub name: String,
    /// Where it was found, and where it is meant to be.
    pub path: Option<String>,
    pub target_path: Option<String>,
}

/// Where an adopted checkout lies.
pub open spec fn adopted_path(checkouts: Seq<AdoptedCheckoutPath>, name: Seq<char>) -> Option<Seq<char>>
    decreases checkouts.len(),
{
    if checkouts.len() == 0 {
        None
    } else if checkouts[0].name@ == name {
        match checkouts[0].path {
            Some(path) => Some(path@),
            None => opt(checkouts[0].target_path),
        }
    } else {
        adopted_path(checkouts.drop_first(), name)
    }
}

/// Where the repositories of a brief lie, as far as they were adopted.
pub open spec fn brief_roots(
    repositories: Seq<Seq<char>>,
    adopted: Map<Seq<char>, Seq<char>>,
    checkouts: Seq<AdoptedCheckoutPath>,
) -> Seq<Seq<char>>
    decreases repositories.len(),
{
    if repositories.len() == 0 {
        Seq::empty()
    } else {
        let before = brief_roots(repositories.drop_last(), adopted, checkouts);
        let last = repositories.last();
        if adopted.dom().contains(last) {
            match adopted_path(checkouts, adopted[last]) {
                Some(path) => before.push(path),
                None => before,
            }
        } else {
            before
        }
    }
}

fn find_adopted(checkouts: &Vec<AdoptedCheckoutPath>, name: &str) -> (r: Option<String>)
    ensures
        opt(r) == adopted_path(checkouts@, name@),
{
    let mut i: usize = 0;
    assert(checkouts@.skip(0) =~= checkouts@);
    while i < checkouts.len()
        invariant
            i <= checkouts@.len(),
            adopted_path(checkouts@, name@) == adopted_path(checkouts@.skip(i as int), name@),
        decreases checkouts.len() - i,
    {
        assert(checkouts@.skip(i as int)[0] == checkouts@[i as int]);
        assert(checkouts@.skip(i as int).drop_first() =~= checkouts@.skip(i + 1));
        if str_eq(checkouts[i].name.as_str(), name) {
            return match &checkouts[i].path {
                Some(path) => Some(path.clone()),
                None => opt_clone(&checkouts[i].target_path),
            };
        }
        i = i + 1;
    }
    None
}

/// Where the repositories of a brief lie. `checkouts` are those that could be
/// read.
pub fn crew_brief_repo_roots(
    repositories: &Vec<String>,
    adopted: &OrderedMap<String>,
    checkouts: &Vec<AdoptedCheckoutPath>,
) -> (r: Vec<String>)
    ensures
        strs(r@) == brief_roots(strs(repositories@), text_map(adopted@), checkouts@),
{
    let ghost all = strs(repositories@);
    let mut r: Vec<String> = Vec::new();
    let mut i: usize = 0;
    assert(strs(r@) =~= brief_roots(all.take(0), text_map(adopted@), checkouts@));
    assert(text_map(adopted@).dom() =~= adopted@.dom());
    while i < repositories.len()
        invariant
            i <= repositories@.len(),
            all == strs(repositories@),
            text_map(adopted@).dom() == adopted@.dom(),
            strs(r@) == brief_roots(all.take(i as int), text_map(adopted@), checkouts@),
        decreases repositories.len() - i,
    {
        assert(all.take(i + 1).drop_last() =~= all.take(i as int));
        assert(all.take(i + 1).last() == repositories@[i as int]@);
        match adopted.get(repositories[i].as_str()) {
            Some(name) => match find_adopted(checkouts, name.as_str()) {
                Some(path) => {
                    let ghost was = strs(r@);
                    r.push(path);
                    assert(strs(r@) =~= was.push(path@));
                },
                None => {},
            },
            None => {},
        }
        i = i + 1;
    }
    assert(all.take(all.len() as int) =~= all);
    r
}

/// A session whose crew has said that its work is done, and who that is.
#[derive(Debug, PartialEq, Eq)]
pub struct PendingCompletion {
    pub session_name: String,
    pub completion: String,
    pub context: CrewCommandContext,
}

/// Whether a completion waits on a session.
pub open spec fn completes(s: TerminalSession) -> bool {
    s.source is Agent && (s.status matches Some(status) && status.completion_pending is Some)
}

/// Where the sessions stand on which a completion waits.
pub open spec fn completing(sessions: Seq<TerminalSession>) -> Seq<TerminalSession>
    decreases sessions.len(),
{
    if sessions.len() == 0 {
        Seq::empty()
    } else if completes(sessions.last()) {
        completing(sessions.drop_last()).push(sessions.last())
    } else {
        completing(sessions.drop_last())
    }
}

/// `p` says what waits on a session.
pub open spec fn completion_of(p: PendingCompletion, s: TerminalSession) -> bool {
    &&& p.session_name@ == s.name@
    &&& (s.status matches Some(status) && opt(status.completion_pending) == Some(p.completion@))
    &&& p.context.crew_id is None
    &&& opt(p.context.role) == Some(s.role@)
    &&& (s.source matches SessionSource::Agent { namespace, convoy, vessel_ref } && opt(p.context.namespace) == Some(
        namespace@,
    ) && opt(p.context.convoy) == Some(convoy@) && opt(p.context.vessel_ref) == Some(vessel_ref@))
}

/// The completions that still have to be carried out.
pub fn pending_crew_completions(sessions: &Vec<TerminalSession>) -> (r: Vec<PendingCompletion>)
    ensures
        r@.len() == completing(sessions@).len(),
        forall|i: int| 0 <= i < r@.len() ==> completion_of(#[trigger] r@[i], completing(sessions@)[i]),
{
    let mut r: Vec<PendingCompletion> = Vec::new();
    let mut i: usize = 0;
    assert(sessions@.take(0).len() == 0);
    while i < sessions.len()
        invariant
            i <= sessions@.len(),
            r@.len() == completing(sessions@.take(i as int)).len(),
            forall|k: int| 0 <= k < r@.len() ==> completion_of(#[trigger] r@[k], completing(sessions@.take(i as int))[k]),
        decreases sessions.len() - i,
    {
        let s = &sessions[i];
        assert(sessions@.take(i + 1).drop_last() =~= sessions@.take(i as int));
        assert(sessions@.take(i + 1).last() == *s);
        match &s.status {
            Some(status) => match (&status.completion_pending, &s.source) {
                (Some(pending), SessionSource::Agent { namespace, convoy, vessel_ref }) => {
                    r.push(
                        PendingCompletion {
                            session_name: s.name.clone(),
                            completion: pending.clone(),
                            context: CrewCommandContext {
                                crew_id: None,
                                namespace: Some(namespace.clone()),
                                convoy: Some(convoy.clone()),
                                vessel_ref: Some(vessel_ref.clone()),
                                role: Some(s.role.clone()),
                            },
                        },
                    );
                },
                _ => {},
            },
            None => {},
        }
        i = i + 1;
    }
    assert(sessions@.take(sessions@.len() as int) =~= sessions@);
    r
}

} // verus!
