//! Messages to crews: resuming a convoy with a brief, taking one back,
//! delivering a standing turn, and tearing a convoy down.
use vstd::prelude::*;

use crate::crew::{CrewDuty, PendingBrief};
use crate::explain::{phase_name, phase_text};
use crate::materialize::put;
use crate::model::{
    terminal_phase, AttentionState, ConvoyPhase, CrewWorkPhase, SessionPhase, SessionSource, TerminalSession, session_phase,
};
use crate::naming::{is_lower_hex, tells_variant};
use crate::ordered::{text_map, OrderedMap};
use crate::text::{
    blank, chars_of, concat3, concat4, concat5, holds, join, join_strs, opt, split_once, starts, str_blank, str_eq, str_split_once,
    str_trim, string_of, strs, trim,
};

verus! {

/// What became of a brief.
#[derive(Debug, Clone, PartialEq, Eq)]
pub enum ConvoyResumeOutcome {
    Delivered { displaced: Option<String> },
    Queued { displaced: Option<String> },
}

/// What is known of the convoy that a brief is for.
#[derive(Debug, PartialEq, Eq)]
pub struct BriefedConvoy {
    pub phase: ConvoyPhase,
    pub work: Vec<CrewDuty>,
    pub pending: Option<PendingBrief>,
}

/// Whether a brief can be for a crew member.
pub open spec fn briefable(w: CrewDuty, vessel: Option<Seq<char>>, role: Option<Seq<char>>) -> bool {
    &&& w.phase == CrewWorkPhase::Working || w.phase == CrewWorkPhase::Done
    &&& vessel is None || vessel == Some(w.vessel@)
    &&& role is None || role == Some(w.role@)
}

/// Where those stand that a brief can be for.
pub open spec fn briefable_at(work: Seq<CrewDuty>, vessel: Option<Seq<char>>, role: Option<Seq<char>>) -> Seq<int>
    decreases work.len(),
{
    if work.len() == 0 {
        Seq::empty()
    } else if briefable(work.last(), vessel, role) {
        briefable_at(work.drop_last(), vessel, role).push(work.len() - 1)
    } else {
        briefable_at(work.drop_last(), vessel, role)
    }
}

/// Who a brief could be for, each as a vessel and a role.
pub open spec fn briefable_texts(work: Seq<CrewDuty>, at: Seq<int>) -> Seq<Seq<char>> {
    Seq::new(at.len(), |i: int| work[at[i]].vessel@ + "/"@ + work[at[i]].role@)
}

/// What was asked for, as a message says it.
pub open spec fn brief_scope(vessel: Option<Seq<char>>, role: Option<Seq<char>>) -> Seq<char> {
    match (vessel, role) {
        (Some(vessel), Some(role)) => " for vessel `"@ + vessel + "` role `"@ + role + "`"@,
        (Some(vessel), None) => " for vessel `"@ + vessel + "`"@,
        (None, Some(role)) => " for role `"@ + role + "`"@,
        (None, None) => ""@,
    }
}

/// Which crew member a brief is for, or why none is.
pub open spec fn brief_target(
    name: Seq<char>,
    prompt: Seq<char>,
    convoy: Option<BriefedConvoy>,
    vessel: Option<Seq<char>>,
    role: Option<Seq<char>>,
) -> Result<int, Seq<char>> {
    if blank(prompt) {
        Err("convoy resume requires a non-empty prompt"@)
    } else {
        match convoy {
            None => Err("convoy `"@ + name + "` has no status"@),
            Some(c) => if terminal_phase(c.phase) {
                Err("convoy `"@ + name + "` is in terminal phase `"@ + phase_name(c.phase) + "` and cannot accept a brief"@)
            } else {
                let at = briefable_at(c.work@, vessel, role);
                if at.len() == 1 {
                    Ok(at[0])
                } else if at.len() == 0 {
                    Err("convoy `"@ + name + "` has no active or completed crew work"@ + brief_scope(vessel, role))
                } else {
                    Err(
                        "convoy `"@ + name + "` has multiple active or completed crew members ("@ + join(
                            briefable_texts(c.work@, at),
                            ", "@,
                        ) + "); select one with --vessel and --role"@,
                    )
                }
            },
        }
    }
}

proof fn lemma_briefable_at(work: Seq<CrewDuty>, vessel: Option<Seq<char>>, role: Option<Seq<char>>)
    ensures
        forall|i: int|
            0 <= i < briefable_at(work, vessel, role).len() ==> 0 <= #[trigger] briefable_at(work, vessel, role)[i] < work.len()
                && briefable(work[briefable_at(work, vessel, role)[i]], vessel, role),
    decreases work.len(),
{
    if work.len() > 0 {
        let rest = work.drop_last();
        lemma_briefable_at(rest, vessel, role);
        let all = briefable_at(work, vessel, role);
        let before = briefable_at(rest, vessel, role);
        assert forall|i: int| 0 <= i < all.len() implies 0 <= #[trigger] all[i] < work.len() && briefable(
            work[all[i]],
            vessel,
            role,
        ) by {
            if i < before.len() {
                assert(all[i] == before[i]);
                assert(work[before[i]] == rest[before[i]]);
            }
        }
    }
}

/// Which crew member a brief is for. `convoy` is what the convoy reported.
pub fn resume_target(
    name: &str,
    prompt: &str,
    convoy: &Option<BriefedConvoy>,
    requested_vessel: &Option<String>,
    requested_role: &Option<String>,
) -> (r: Result<usize, String>)
    ensures
        match r {
            Ok(i) => brief_target(name@, prompt@, *convoy, opt(*requested_vessel), opt(*requested_role)) == Ok::<
                int,
                Seq<char>,
            >(i as int) && convoy is Some && i < convoy->0.work@.len() && briefable(
                convoy->0.work@[i as int],
                opt(*requested_vessel),
                opt(*requested_role),
            ),
            Err(e) => brief_target(name@, prompt@, *convoy, opt(*requested_vessel), opt(*requested_role)) == Err::<
                int,
                Seq<char>,
            >(e@),
        },
{
    if str_blank(prompt) {
        return Err("convoy resume requires a non-empty prompt".to_owned());
    }
    let c = match convoy {
        None => {
            return Err(concat3("convoy `", name, "` has no status"));
        },
        Some(c) => c,
    };
    if c.phase.is_terminal() {
        let shown = phase_text(c.phase);
        return Err(concat5("convoy `", name, "` is in terminal phase `", shown.as_str(), "` and cannot accept a brief"));
    }
    let ghost vessel = opt(*requested_vessel);
    let ghost role = opt(*requested_role);
    let mut found: Vec<usize> = Vec::new();
    let mut texts: Vec<String> = Vec::new();
    let mut i: usize = 0;
    let ghost mut at = Seq::<int>::empty();
    assert(briefable_at(c.work@.take(0), vessel, role) =~= at);
    assert(strs(texts@) =~= briefable_texts(c.work@, at));
    while i < c.work.len()
        invariant
            i <= c.work@.len(),
            vessel == opt(*requested_vessel),
            role == opt(*requested_role),
            at == briefable_at(c.work@.take(i as int), vessel, role),
            found@.len() == at.len(),
            forall|k: int| 0 <= k < at.len() ==> found@[k] == #[trigger] at[k],
            strs(texts@) == briefable_texts(c.work@, at),
        decreases c.work.len() - i,
    {
        let w = &c.work[i];
        assert(c.work@.take(i + 1).drop_last() =~= c.work@.take(i as int));
        assert(c.work@.take(i + 1).last() == *w);
        let busy = match w.phase {
            CrewWorkPhase::Working | CrewWorkPhase::Done => true,
            _ => false,
        };
        let here = match requested_vessel {
            None => true,
            Some(vessel) => str_eq(vessel.as_str(), w.vessel.as_str()),
        };
        let them = match requested_role {
            None => true,
            Some(role) => str_eq(role.as_str(), w.role.as_str()),
        };
        if busy && here && them {
            let ghost was = strs(texts@);
            let text = concat3(w.vessel.as_str(), "/", w.role.as_str());
            texts.push(text);
            found.push(i);
            proof {
                let next = at.push(i as int);
                assert(strs(texts@) =~= was.push(text@));
                assert(briefable_texts(c.work@, next) =~= briefable_texts(c.work@, at).push(text@));
                at = next;
            }
        }
        i = i + 1;
    }
    proof {
        assert(c.work@.take(c.work@.len() as int) =~= c.work@);
        lemma_briefable_at(c.work@, vessel, role);
    }
    if found.len() == 1 {
        assert(found@[0] == at[0]);
        return Ok(found[0]);
    }
    if found.len() == 0 {
        let scope = match (requested_vessel, requested_role) {
            (Some(vessel), Some(role)) => concat5(" for vessel `", vessel.as_str(), "` role `", role.as_str(), "`"),
            (Some(vessel), None) => concat3(" for vessel `", vessel.as_str(), "`"),
            (None, Some(role)) => concat3(" for role `", role.as_str(), "`"),
            (None, None) => "".to_owned(),
        };
        return Err(concat4("convoy `", name, "` has no active or completed crew work", scope.as_str()));
    }
    let joined = join_strs(&texts, ", ");
    Err(
        concat5(
            "convoy `",
            name,
            "` has multiple active or completed crew members (",
            joined.as_str(),
            "); select one with --vessel and --role",
        ),
    )
}

/// How a brief reaches its crew member.
#[derive(Debug, PartialEq, Eq)]
#[allow(inconsistent_fields)]
pub enum ResumeStep {
    /// Keep it until the turn ends.
    Queue { displaced: Option<String> },
    /// Leave it with the session, and start that again where it stopped.
    Deliver { session_name: String, restart: bool, displaced: Option<String> },
    Fail { message: String },
}

/// Whether a session is between two turns.
pub open spec fn between_turns(session: Result<Option<TerminalSession>, String>) -> bool {
    session matches Ok(Some(s)) && (s.status matches Some(status) && status.phase == SessionPhase::Running && (
    status.attention matches Some(a) && a.state == AttentionState::Idle))
}

/// `r` is how a brief reaches its crew member.
pub open spec fn resume_decided(
    r: ResumeStep,
    target: CrewDuty,
    pending: Option<PendingBrief>,
    session: Result<Option<TerminalSession>, String>,
) -> bool {
    let fails = |e: Seq<char>| r matches ResumeStep::Fail { message } && message@ == e;
    let own = pending matches Some(p) && p.vessel@ == target.vessel@ && p.role@ == target.role@;
    if target.phase == CrewWorkPhase::Working && !between_turns(session) {
        r matches ResumeStep::Queue { displaced } && opt(displaced) == match pending {
            Some(p) => Some(p.content@),
            None => None,
        }
    } else {
        match session {
            Err(e) => fails(e@),
            Ok(None) => fails(
                "crew member `"@ + target.role@ + "` on vessel `"@ + target.vessel@ + "` has no intact terminal session"@,
            ),
            Ok(Some(s)) => if session_phase(s) == Some(SessionPhase::Failed) {
                fails(
                    "crew member `"@ + target.role@ + "` on vessel `"@ + target.vessel@
                        + "` failed provisioning and cannot be resumed"@,
                )
            } else if s.source is Tool {
                fails("crew target `"@ + s.role@ + "` is not an agent session"@)
            } else {
                r matches ResumeStep::Deliver { session_name, restart, displaced } && session_name@ == s.name@ && restart
                    == (session_phase(s) == Some(SessionPhase::Stopped)) && opt(displaced) == (if own {
                    Some(pending->0.content@)
                } else {
                    None
                })
            },
        }
    }
}

/// Decides how a brief reaches its crew member: one that is in the middle of a
/// turn gets it when the turn ends.
pub fn convoy_resume_step(
    target: &CrewDuty,
    pending: &Option<PendingBrief>,
    session: &Result<Option<TerminalSession>, String>,
) -> (r: ResumeStep)
    ensures
        resume_decided(r, *target, *pending, *session),
{
    let idle = match session {
        Ok(Some(s)) => match &s.status {
            Some(status) => {
                let running = match status.phase {
                    SessionPhase::Running => true,
                    _ => false,
                };
                let at_rest = match &status.attention {
                    Some(a) => match a.state {
                        AttentionState::Idle => true,
                        _ => false,
                    },
                    None => false,
                };
                running && at_rest
            },
            None => false,
        },
        _ => false,
    };
    let working = match target.phase {
        CrewWorkPhase::Working => true,
        _ => false,
    };
    if working && !idle {
        let displaced = match pending {
            Some(p) => Some(p.content.clone()),
            None => None,
        };
        return ResumeStep::Queue { displaced };
    }
    let displaced = match pending {
        Some(p) => {
            if str_eq(p.vessel.as_str(), target.vessel.as_str()) && str_eq(p.role.as_str(), target.role.as_str()) {
                Some(p.content.clone())
            } else {
                None
            }
        },
        None => None,
    };
    let s = match session {
        Err(e) => {
            return ResumeStep::Fail { message: e.clone() };
        },
        Ok(None) => {
            return ResumeStep::Fail {
                message: concat5(
                    "crew member `",
                    target.role.as_str(),
                    "` on vessel `",
                    target.vessel.as_str(),
                    "` has no intact terminal session",
                ),
            };
        },
        Ok(Some(s)) => s,
    };
    let restart = match s.phase() {
        Some(SessionPhase::Failed) => {
            return ResumeStep::Fail {
                message: concat5(
                    "crew member `",
                    target.role.as_str(),
                    "` on vessel `",
                    target.vessel.as_str(),
                    "` failed provisioning and cannot be resumed",
                ),
            };
        },
        Some(SessionPhase::Stopped) => true,
        _ => false,
    };
    match &s.source {
        SessionSource::Tool => ResumeStep::Fail {
            message: concat3("crew target `", s.role.as_str(), "` is not an agent session"),
        },
        SessionSource::Agent { .. } => ResumeStep::Deliver { session_name: s.name.clone(), restart, displaced },
    }
}

/// A crew member in the middle of a turn is never interrupted by a brief.
pub proof fn law_briefs_wait_for_the_turn(
    r: ResumeStep,
    target: CrewDuty,
    pending: Option<PendingBrief>,
    session: Result<Option<TerminalSession>, String>,
)
    requires
        resume_decided(r, target, pending, session),
        target.phase == CrewWorkPhase::Working,
        !between_turns(session),
    ensures
        r is Queue,
{
}

/// What becomes of a brief once it was queued or delivered.
pub fn resume_outcome(step: ResumeStep) -> (r: Result<ConvoyResumeOutcome, String>)
    ensures
        r == match step {
            ResumeStep::Queue { displaced } => Ok(ConvoyResumeOutcome::Queued { displaced }),
            ResumeStep::Deliver { session_name: _, restart: _, displaced } => Ok(
                ConvoyResumeOutcome::Delivered { displaced },
            ),
            ResumeStep::Fail { message } => Err(message),
        },
{
    match step {
        ResumeStep::Queue { displaced } => Ok(ConvoyResumeOutcome::Queued { displaced }),
        ResumeStep::Deliver { session_name: _, restart: _, displaced } => Ok(ConvoyResumeOutcome::Delivered { displaced }),
        ResumeStep::Fail { message } => Err(message),
    }
}

/// The brief that is taken back, where one waits.
pub fn withdraw_pending_brief(name: &str, convoy: &Option<BriefedConvoy>) -> (r: Result<Option<String>, String>)
    ensures
        match *convoy {
            None => r matches Err(e) && e@ == "convoy `"@ + name@ + "` has no status"@,
            Some(c) => if terminal_phase(c.phase) {
                r matches Err(e) && e@ == "convoy `"@ + name@ + "` is in terminal phase `"@ + phase_name(c.phase)
                    + "` and cannot accept message changes"@
            } else {
                r matches Ok(withdrawn) && opt(withdrawn) == match c.pending {
                    Some(p) => Some(p.content@),
                    None => None,
                }
            },
        },
{
    match convoy {
        None => Err(concat3("convoy `", name, "` has no status")),
        Some(c) => {
            if c.phase.is_terminal() {
                let shown = phase_text(c.phase);
                return Err(
                    concat5(
                        "convoy `",
                        name,
                        "` is in terminal phase `",
                        shown.as_str(),
                        "` and cannot accept message changes",
                    ),
                );
            }
            match &c.pending {
                Some(p) => Ok(Some(p.content.clone())),
                None => Ok(None),
            }
        },
    }
}

/// A message for a crew member.
#[derive(Debug, PartialEq, Eq)]
pub struct CrewMessage {
    pub id: String,
    pub text: String,
}

/// Whether a character stands in an id, by its place: hyphens part the digits
/// into groups of eight, four, four, four and twelve, of which the third
/// begins with the version and the fourth with the variant.
pub open spec fn id_char(c: char, at: int) -> bool {
    if at == 8 || at == 13 || at == 18 || at == 23 {
        c == '-'
    } else if at == 14 {
        c == '4'
    } else if at == 19 {
        tells_variant(c)
    } else {
        is_lower_hex(c)
    }
}

/// `uuid::Uuid::new_v4` in its usual form: 36 characters, drawn at random but
/// for the hyphens, the version and the variant.
#[verifier::external_body]
fn fresh_message_id() -> (r: String)
    ensures
        r@.len() == 36,
        forall|i: int| 0 <= i < r@.len() ==> id_char(#[trigger] r@[i], i),
{
    uuid::Uuid::new_v4().to_string()
}

/// A message under a fresh id.
pub fn pending_crew_message(text: &str) -> (r: CrewMessage)
    ensures
        r.text@ == text@,
        r.id@.len() == 36,
        forall|i: int| 0 <= i < r.id@.len() ==> id_char(#[trigger] r.id@[i], i),
{
    CrewMessage { id: fresh_message_id(), text: text.to_owned() }
}

/// How a standing turn reaches a session.
#[derive(Debug, Clone, Copy, PartialEq, Eq, Structural)]
pub enum TurnDeliverySessionPlan {
    QueueWarm,
    QueueFresh,
    RestartFresh,
}

/// How a standing turn reaches a session: the one that runs takes it, one that
/// stopped is started again with it, and one that failed cannot have it.
pub fn turn_delivery_session_plan(phase: Option<SessionPhase>, vessel: &str, role: &str) -> (r: Result<TurnDeliverySessionPlan, String>)
    ensures
        match phase {
            Some(SessionPhase::Running) => r == Ok::<TurnDeliverySessionPlan, String>(TurnDeliverySessionPlan::QueueWarm),
            Some(SessionPhase::Starting) | None => r == Ok::<TurnDeliverySessionPlan, String>(
                TurnDeliverySessionPlan::QueueFresh,
            ),
            Some(SessionPhase::Stopped) => r == Ok::<TurnDeliverySessionPlan, String>(
                TurnDeliverySessionPlan::RestartFresh,
            ),
            Some(SessionPhase::Failed) => r matches Err(e) && e@ == "turn-delivery target "@ + vessel@ + "/"@ + role@
                + " failed provisioning and cannot be restarted"@,
        },
{
    match phase {
        Some(SessionPhase::Running) => Ok(TurnDeliverySessionPlan::QueueWarm),
        Some(SessionPhase::Starting) | None => Ok(TurnDeliverySessionPlan::QueueFresh),
        Some(SessionPhase::Stopped) => Ok(TurnDeliverySessionPlan::RestartFresh),
        Some(SessionPhase::Failed) => Err(
            concat5(
                "turn-delivery target ",
                vessel,
                "/",
                role,
                " failed provisioning and cannot be restarted",
            ),
        ),
    }
}

/// A turn that is delivered to whoever stands by.
#[derive(Debug, PartialEq, Eq)]
pub struct TurnDeliveryRequest {
    pub vessel: String,
    pub role: String,
    pub source: String,
    pub head_sha: String,
    pub brief: String,
}

/// What is written to the session of a standing turn.
#[derive(Debug, PartialEq, Eq)]
pub struct TurnDelivery {
    /// Another brief to start with.
    pub brief: Option<String>,
    /// The message that it finds.
    pub message: Option<CrewMessage>,
    pub restart: bool,
    /// Whether a session that runs takes it, rather than a fresh one.
    pub warm: bool,
}

/// `r` is what is written to the session of a standing turn.
pub open spec fn turn_delivered(r: Result<TurnDelivery, String>, request: TurnDeliveryRequest, session: Option<TerminalSession>) -> bool {
    let whom = request.vessel@ + "/"@ + request.role@;
    match session {
        None => r matches Err(e) && e@ == "turn-delivery target "@ + whom + " has no durable terminal-session record"@,
        Some(s) => if s.source is Tool {
            r matches Err(e) && e@ == "turn-delivery target "@ + whom + " is not an agent"@
        } else if session_phase(s) == Some(SessionPhase::Failed) {
            r matches Err(e) && e@ == "turn-delivery target "@ + whom + " failed provisioning and cannot be restarted"@
        } else if session_phase(s) == Some(SessionPhase::Stopped) {
            r matches Ok(d) && opt(d.brief) == Some(request.brief@) && d.message is None && d.restart && !d.warm
        } else {
            r matches Ok(d) && d.brief is None && (d.message matches Some(m) && m.id@ == "turn-delivery:"@ + request.source@
                + ":"@ + request.head_sha@ && m.text@ == request.brief@) && !d.restart && d.warm == (session_phase(s)
                == Some(SessionPhase::Running))
        },
    }
}

/// What is written to the session of a standing turn.
pub fn deliver_standing_turn(request: &TurnDeliveryRequest, session: &Option<TerminalSession>) -> (r: Result<TurnDelivery, String>)
    ensures
        turn_delivered(r, *request, *session),
{
    let whom = concat3(request.vessel.as_str(), "/", request.role.as_str());
    let s = match session {
        None => {
            return Err(
                concat3("turn-delivery target ", whom.as_str(), " has no durable terminal-session record"),
            );
        },
        Some(s) => s,
    };
    match &s.source {
        SessionSource::Tool => {
            return Err(concat3("turn-delivery target ", whom.as_str(), " is not an agent"));
        },
        SessionSource::Agent { .. } => {},
    }
    let plan = match turn_delivery_session_plan(s.phase(), request.vessel.as_str(), request.role.as_str()) {
        Err(e) => {
            let said = concat3(
                "turn-delivery target ",
                whom.as_str(),
                " failed provisioning and cannot be restarted",
            );
            proof {
                let a = "turn-delivery target "@;
                let z = " failed provisioning and cannot be restarted"@;
                assert(a + request.vessel@ + "/"@ + request.role@ + z =~= a + (request.vessel@ + "/"@ + request.role@) + z);
            }
            return Err(said);
        },
        Ok(plan) => plan,
    };
    match plan {
        TurnDeliverySessionPlan::RestartFresh => Ok(
            TurnDelivery { brief: Some(request.brief.clone()), message: None, restart: true, warm: false },
        ),
        TurnDeliverySessionPlan::QueueWarm | TurnDeliverySessionPlan::QueueFresh => {
            let warm = match plan {
                TurnDeliverySessionPlan::QueueWarm => true,
                _ => false,
            };
            let id = concat4("turn-delivery:", request.source.as_str(), ":", request.head_sha.as_str());
            Ok(
                TurnDelivery {
                    brief: None,
                    message: Some(CrewMessage { id, text: request.brief.clone() }),
                    restart: false,
                    warm,
                },
            )
        },
    }
}

/// Where a text stands first in another, or the length of that.
pub open spec fn text_at(s: Seq<char>, pat: Seq<char>) -> int
    decreases s.len(),
{
    if s.len() == 0 || starts(s, pat) {
        0
    } else {
        1 + text_at(s.drop_first(), pat)
    }
}

/// The repository of a canonical address: what follows the host.
pub open spec fn forge_scope(canonical: Seq<char>) -> Option<Seq<char>> {
    let at = text_at(canonical, "://"@);
    if at < canonical.len() && starts(canonical.skip(at), "://"@) {
        match split_once(canonical.skip(at + 3), '/') {
            Some((_, scope)) => Some(scope),
            None => None,
        }
    } else {
        None
    }
}

fn find_forge_scope(canonical: &str) -> (r: Option<String>)
    ensures
        opt(r) == forge_scope(canonical@),
{
    let x = chars_of(canonical);
    let mut i: usize = 0;
    assert(x@.skip(0) =~= x@);
    proof {
        reveal_strlit("://");
    }
    while i < x.len()
        invariant
            i <= x@.len(),
            x@ == canonical@,
            "://"@ == seq![':', '/', '/'],
            text_at(x@, "://"@) == i + text_at(x@.skip(i as int), "://"@),
        decreases x.len() - i,
    {
        let ghost rest = x@.skip(i as int);
        assert(rest.drop_first() =~= x@.skip(i + 1));
        let here = x.len() - i >= 3 && x[i] == ':' && x[i + 1] == '/' && x[i + 2] == '/';
        assert(here == starts(rest, "://"@)) by {
            if here {
                assert(rest.take(3) =~= "://"@);
            } else if starts(rest, "://"@) {
                assert(rest.take(3)[0] == x@[i as int]);
                assert(rest.take(3)[1] == x@[i + 1]);
                assert(rest.take(3)[2] == x@[i + 2]);
            }
        }
        if here {
            let n: usize = x.len();
            let tail = string_of(&x, i + 3, n);
            assert(tail@ =~= x@.skip(i + 3));
            return match str_split_once(tail.as_str(), '/') {
                Some((_, scope)) => Some(scope),
                None => None,
            };
        }
        i = i + 1;
    }
    None
}

/// The change request that a convoy is bound to, by the repository it is of.
#[derive(Debug, PartialEq, Eq)]
pub struct HeldRequest {
    pub id: String,
    pub repository_ref: String,
}

/// A repository of a convoy whose turns are held.
#[derive(Debug, PartialEq, Eq)]
pub struct HeldRepository {
    pub repo_ref: String,
    pub url: String,
    /// Its canonical address.
    pub canonical: Result<String, String>,
}

/// Where a repository stands, or the number of them.
pub open spec fn held_at(repositories: Seq<HeldRepository>, repo_ref: Seq<char>) -> int
    decreases repositories.len(),
{
    if repositories.len() == 0 || repositories[0].repo_ref@ == repo_ref {
        0
    } else {
        1 + held_at(repositories.drop_first(), repo_ref)
    }
}

/// `r` is the comment that says that turns are held: the request, the
/// repository and the text.
pub open spec fn hold_comment(
    r: Result<(String, String, String), String>,
    bound: Option<HeldRequest>,
    repositories: Seq<HeldRepository>,
    body: Seq<char>,
    reason: Seq<char>,
) -> bool {
    match bound {
        None => r matches Err(e) && e@ == "turn-delivery convoy has no bound change request"@,
        Some(bound) => {
            let at = held_at(repositories, bound.repository_ref@);
            if at >= repositories.len() {
                r matches Err(e) && e@ == "bound repository "@ + bound.repository_ref@ + " is absent"@
            } else {
                match repositories[at].canonical {
                    Err(error) => r matches Err(e) && e@ == error@,
                    Ok(canonical) => match forge_scope(canonical@) {
                        None => r matches Err(e) && e@ == "cannot derive repository scope from "@ + repositories[at].url@,
                        Some(scope) => r matches Ok((id, name, text)) && id@ == bound.id@ && name@ == scope && text@ == trim(
                            body,
                        ) + "\n\n"@ + reason,
                    },
                }
            }
        },
    }
}

/// The comment on a change request that says that turns are held.
pub fn turn_delivery_hold_comment(
    bound: &Option<HeldRequest>,
    repositories: &Vec<HeldRepository>,
    body: &str,
    reason: &str,
) -> (r: Result<(String, String, String), String>)
    ensures
        hold_comment(r, *bound, repositories@, body@, reason@),
{
    let bound = match bound {
        None => {
            return Err("turn-delivery convoy has no bound change request".to_owned());
        },
        Some(bound) => bound,
    };
    let mut i: usize = 0;
    assert(repositories@.skip(0) =~= repositories@);
    while i < repositories.len() && !str_eq(repositories[i].repo_ref.as_str(), bound.repository_ref.as_str())
        invariant
            i <= repositories@.len(),
            held_at(repositories@, bound.repository_ref@) == i + held_at(
                repositories@.skip(i as int),
                bound.repository_ref@,
            ),
        decreases repositories.len() - i,
    {
        assert(repositories@.skip(i as int)[0] == repositories@[i as int]);
        assert(repositories@.skip(i as int).drop_first() =~= repositories@.skip(i + 1));
        i = i + 1;
    }
    if i >= repositories.len() {
        return Err(crate::text::concat3("bound repository ", bound.repository_ref.as_str(), " is absent"));
    }
    assert(repositories@.skip(i as int)[0] == repositories@[i as int]);
    let canonical = match &repositories[i].canonical {
        Err(e) => {
            return Err(e.clone());
        },
        Ok(canonical) => canonical,
    };
    match find_forge_scope(canonical.as_str()) {
        None => Err(crate::text::concat2("cannot derive repository scope from ", repositories[i].url.as_str())),
        Some(scope) => {
            let said = str_trim(body);
            Ok((bound.id.clone(), scope, concat3(said.as_str(), "\n\n", reason)))
        },
    }
}

/// A list of texts as JSON.
pub uninterp spec fn texts_json(texts: Seq<Seq<char>>) -> Seq<char>;

/// `serde_json::to_string` of a list of texts: a function of the texts alone.
#[verifier::external_body]
fn write_texts(texts: &Vec<String>) -> (r: String)
    ensures
        r@ == texts_json(strs(texts@)),
{
    serde_json::to_string(texts).expect("texts serialize")
}

/// What each credential may be used for, as lists of texts.
pub open spec fn scope_views(scopes: Map<Seq<char>, Vec<String>>) -> Map<Seq<char>, Seq<Seq<char>>> {
    scopes.map_values(|list: Vec<String>| strs(list@))
}

/// Lists of texts by name, as JSON.
pub uninterp spec fn scopes_json(scopes: Map<Seq<char>, Seq<Seq<char>>>) -> Seq<char>;

/// `serde_json::to_string` of an object whose members are lists of texts: a
/// function of the members alone.
#[verifier::external_body]
fn write_scopes(scopes: &OrderedMap<Vec<String>>) -> (r: String)
    ensures
        r@ == scopes_json(scope_views(scopes@)),
{
    let members = (0..scopes.len()).map(|i| (scopes.key(i).clone(), serde_json::Value::from(scopes.value(i).clone())));
    serde_json::to_string(&serde_json::Value::Object(members.collect())).expect("scopes serialize")
}

/// The names of the annotations that say which credentials a session has.
#[derive(Debug)]
pub struct CredentialAnnotationNames {
    pub refs: String,
    pub scopes: String,
}

/// Annotations with the credentials of a vessel; nothing is noted where there
/// is nothing to say.
pub open spec fn with_credentials(
    annotations: Map<Seq<char>, Seq<char>>,
    names: CredentialAnnotationNames,
    refs: Seq<Seq<char>>,
    scopes: Map<Seq<char>, Seq<Seq<char>>>,
) -> Map<Seq<char>, Seq<char>> {
    let named = if refs.len() > 0 {
        annotations.insert(names.refs@, texts_json(refs))
    } else {
        annotations
    };
    if scopes.dom() == Set::<Seq<char>>::empty() {
        named
    } else {
        named.insert(names.scopes@, scopes_json(scopes))
    }
}

/// Notes the credentials of a vessel on a session that is started aboard it,
/// and what each of them may be used for.
pub fn terminal_meta_with_vessel_credentials(
    annotations: &mut OrderedMap<String>,
    names: &CredentialAnnotationNames,
    refs: &Vec<String>,
    scopes: &OrderedMap<Vec<String>>,
)
    ensures
        text_map(final(annotations)@) == with_credentials(
            text_map(old(annotations)@),
            *names,
            strs(refs@),
            scope_views(scopes@),
        ),
{
    assert(strs(refs@).len() == refs@.len());
    if refs.len() > 0 {
        let text = write_texts(refs);
        put(annotations, names.refs.as_str(), text.as_str());
    }
    assert(scope_views(scopes@).dom() =~= scopes@.dom());
    let limited: usize = scopes.len();
    proof {
        if limited > 0 {
            assert(scopes@.dom().contains(scopes.keys()[0]));
        } else {
            assert forall|k: Seq<char>| !#[trigger] scopes@.dom().contains(k) by {
                if scopes@.dom().contains(k) {
                    assert(holds(scopes.keys(), k));
                }
            }
            assert(scopes@.dom() =~= Set::<Seq<char>>::empty());
        }
    }
    if limited > 0 {
        let text = write_scopes(scopes);
        put(annotations, names.scopes.as_str(), text.as_str());
    }
}

/// What a demand was raised for.
#[derive(Debug, PartialEq, Eq)]
pub struct DemandRecord {
    pub name: String,
    pub api_version: String,
    pub kind: String,
    pub namespace: String,
    pub target: String,
}

/// A kind of record: its version and its name.
#[derive(Debug, PartialEq, Eq)]
pub struct RecordKind {
    pub api_version: String,
    pub kind: String,
}

/// Whether a demand was raised for a convoy.
pub open spec fn demanded_by(d: DemandRecord, kind: RecordKind, namespace: Seq<char>, name: Seq<char>) -> bool {
    d.api_version@ == kind.api_version@ && d.kind@ == kind.kind@ && d.namespace@ == namespace && d.target@ == name
}

/// The demands that were raised for a convoy.
pub open spec fn demands_of(demands: Seq<DemandRecord>, kind: RecordKind, namespace: Seq<char>, name: Seq<char>) -> Seq<Seq<char>>
    decreases demands.len(),
{
    if demands.len() == 0 {
        Seq::empty()
    } else {
        let before = demands_of(demands.drop_last(), kind, namespace, name);
        if demanded_by(demands.last(), kind, namespace, name) {
            before.push(demands.last().name@)
        } else {
            before
        }
    }
}

/// The demands that go with a convoy.
pub fn cascaded_demands(demands: &Vec<DemandRecord>, convoy_kind: &RecordKind, namespace: &str, name: &str) -> (r: Vec<String>)
    ensures
        strs(r@) == demands_of(demands@, *convoy_kind, namespace@, name@),
{
    let mut r: Vec<String> = Vec::new();
    let mut i: usize = 0;
    assert(strs(r@) =~= demands_of(demands@.take(0), *convoy_kind, namespace@, name@));
    while i < demands.len()
        invariant
            i <= demands@.len(),
            strs(r@) == demands_of(demands@.take(i as int), *convoy_kind, namespace@, name@),
        decreases demands.len() - i,
    {
        let d = &demands[i];
        assert(demands@.take(i + 1).drop_last() =~= demands@.take(i as int));
        assert(demands@.take(i + 1).last() == *d);
        if str_eq(d.api_version.as_str(), convoy_kind.api_version.as_str()) && str_eq(
            d.kind.as_str(),
            convoy_kind.kind.as_str(),
        ) && str_eq(d.namespace.as_str(), namespace) && str_eq(d.target.as_str(), name) {
            let ghost was = strs(r@);
            r.push(d.name.clone());
            assert(strs(r@) =~= was.push(d.name@));
        }
        i = i + 1;
    }
    assert(demands@.take(demands@.len() as int) =~= demands@);
    r
}

/// A convoy is abandoned for a reason.
pub fn check_abandon_reason(reason: &str) -> (r: Result<(), String>)
    ensures
        match r {
            Ok(()) => !blank(reason@),
            Err(e) => blank(reason@) && e@ == "convoy abandon requires a non-empty reason"@,
        },
{
    if str_blank(reason) {
        Err("convoy abandon requires a non-empty reason".to_owned())
    } else {
        Ok(())
    }
}

} // verus!
