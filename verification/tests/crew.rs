use flotilla_core::crew::{
    check_decision_ledger, crew_brief_repo_roots, crew_complete_step, crew_handoff_address_error, crew_handoff_message, crew_work_phase,
    ensure_crew_work_is_defined, handoff_assignment, handoff_members, handoff_step, handoff_target, list_crew, pending_crew_completions,
    resolve_crew_routing_context, resolved_crew_context, AdoptedCheckoutPath, CompleteStep, CrewAssignment, CrewCommandContext, CrewDuty,
    CrewProcess, CrewedVessel, HandoffStep, HandoffTarget, PendingBrief, ResolvedCrewContext, TargetSession,
};
use flotilla_core::crew_work::{completion_plan, handoff_plan, next_effect, resume_plan, Completion, CrewEffect, PlanTurn, WorkNote};
use flotilla_core::handoff::{handoff_session, SessionAnchor};
use flotilla_core::messages::{
    cascaded_demands, check_abandon_reason, convoy_resume_step, deliver_standing_turn, pending_crew_message, resume_outcome,
    resume_target, terminal_meta_with_vessel_credentials, turn_delivery_hold_comment, turn_delivery_session_plan, withdraw_pending_brief,
    BriefedConvoy, ConvoyResumeOutcome, CredentialAnnotationNames, DemandRecord, HeldRepository, HeldRequest, RecordKind, ResumeStep,
    TurnDeliveryRequest, TurnDeliverySessionPlan,
};
use flotilla_core::model::{
    AttentionState, ConvoyPhase, CrewIdentity, CrewLabels, CrewWorkPhase, SessionPhase, SessionSource, SessionStatus, TerminalAttention,
    TerminalSession,
};
use flotilla_core::ordered::OrderedMap;
use flotilla_core::workflow::AgentSelector;

fn text(value: &str) -> Option<String> {
    Some(value.to_string())
}

fn session(name: &str, role: &str, agent: bool, phase: Option<SessionPhase>, state: Option<AttentionState>) -> TerminalSession {
    TerminalSession {
        name: name.to_string(),
        namespace: "flotilla".to_string(),
        labels: CrewLabels { convoy: text("convoy-1"), vessel: text("work"), role: text(role), vessel_ref: text("vessel-1") },
        role: role.to_string(),
        env_ref: "env-1".to_string(),
        source: if agent {
            SessionSource::Agent {
                namespace: "flotilla".to_string(),
                convoy: "convoy-1".to_string(),
                vessel_ref: "vessel-1".to_string(),
            }
        } else {
            SessionSource::Tool
        },
        status: phase.map(|phase| SessionStatus {
            phase,
            attention: state.map(|state| TerminalAttention { state, stale: false }),
            degraded_reason: None,
            crew: Some(CrewIdentity {
                id: format!("crew-{name}"),
                adapter: "codex".to_string(),
                model: None,
                stance: "trusted".to_string(),
            }),
            completion_pending: None,
            delivered_message_id: None,
        }),
    }
}

fn asked(crew_id: Option<&str>, namespace: Option<&str>, named: bool) -> CrewCommandContext {
    CrewCommandContext {
        crew_id: crew_id.map(str::to_string),
        namespace: namespace.map(str::to_string),
        convoy: if named { text("convoy-1") } else { None },
        vessel_ref: if named { text("vessel-1") } else { None },
        role: if named { text("coder") } else { None },
    }
}

fn context() -> ResolvedCrewContext {
    ResolvedCrewContext {
        namespace: "flotilla".to_string(),
        convoy: "convoy-1".to_string(),
        vessel_ref: "vessel-1".to_string(),
        vessel: "work".to_string(),
        caller_role: "coder".to_string(),
    }
}

fn duty(role: &str, phase: CrewWorkPhase) -> CrewDuty {
    CrewDuty { vessel: "work".to_string(), role: role.to_string(), phase }
}

fn scopes(entries: &[(&str, &[&str])]) -> OrderedMap<Vec<String>> {
    let mut map = OrderedMap::new();
    for (credential, repositories) in entries {
        map.insert(credential.to_string(), repositories.iter().map(|repository| repository.to_string()).collect());
    }
    map
}

fn credential_names() -> CredentialAnnotationNames {
    CredentialAnnotationNames { refs: "refs".to_string(), scopes: "scopes".to_string() }
}

fn vessels() -> Vec<CrewedVessel> {
    let process = |role: &str, adapter: Option<&str>| CrewProcess {
        role: role.to_string(),
        agent: adapter.map(|adapter| AgentSelector { capability: "code".to_string(), adapter: text(adapter), model: None }),
        prompt: None,
        labels: vec![("role".to_string(), role.to_string())],
    };
    vec![CrewedVessel {
        name: "work".to_string(),
        crew: vec![process("coder", Some("codex")), process("pilot", Some("other-agent")), process("server", None)],
        credential_refs: vec!["agent-max".to_string(), "github-crew-pr".to_string()],
        credential_scopes: scopes(&[("agent-max", &["repo-a"]), ("github-crew-pr", &["repo-a", "repo-b"])]),
    }]
}

fn brief(role: &str) -> PendingBrief {
    PendingBrief { vessel: "work".to_string(), role: role.to_string(), content: "the brief".to_string() }
}

#[test]
fn a_crew_command_comes_from_a_known_member() {
    let sessions = vec![
        session("s-1", "coder", true, Some(SessionPhase::Running), None),
        session("s-2", "server", false, Some(SessionPhase::Running), None),
    ];
    let by_id = resolve_crew_routing_context(&asked(Some("crew-s-1"), None, false), "flotilla", &sessions).expect("a context");
    assert_eq!(by_id.convoy, "convoy-1");
    assert_eq!(by_id.session_name, text("s-1"));
    assert_eq!(by_id.command_context.role, text("coder"));
    let by_name = resolve_crew_routing_context(&asked(None, None, true), "flotilla", &sessions).expect("a context");
    assert_eq!(by_name.session_name, text("s-1"));
    let refuse = |c: CrewCommandContext| resolve_crew_routing_context(&c, "flotilla", &sessions).err();
    assert_eq!(refuse(asked(Some("x"), None, false)), text("unknown FLOTILLA_CREW_ID `x`"));
    assert_eq!(refuse(asked(Some("crew-s-2"), None, false)), text("crew identity `crew-s-2` belongs to a non-agent process"));
    assert_eq!(refuse(asked(None, Some("other"), true)), text("crew namespace `other` is not served by this daemon"));
    assert_eq!(
        refuse(asked(None, None, false)),
        text("crew context requires FLOTILLA_CREW_ID or --convoy, --vessel-ref, and --role")
    );
}

#[test]
fn a_vessel_belongs_to_its_convoy() {
    assert_eq!(resolved_crew_context("flotilla", "convoy-1", "vessel-1", "coder", "convoy-1", "work"), Ok(context()));
    assert_eq!(
        resolved_crew_context("flotilla", "convoy-1", "vessel-1", "coder", "other", "work"),
        Err("vessel `vessel-1` does not belong to convoy `convoy-1`".to_string())
    );
}

#[test]
fn crew_work_must_be_defined() {
    let work = vec![duty("coder", CrewWorkPhase::Working)];
    assert_eq!(crew_work_phase(&work, "work", "coder"), Some(CrewWorkPhase::Working));
    assert_eq!(crew_work_phase(&work, "work", "pilot"), None);
    assert_eq!(ensure_crew_work_is_defined(&work, &context()), Ok(()));
    assert_eq!(
        ensure_crew_work_is_defined(&vec![], &context()),
        Err("crew work for role `coder` is not defined on vessel `work`".to_string())
    );
}

#[test]
fn the_crew_of_a_vessel_is_listed_with_its_state() {
    let list = list_crew(
        &context(),
        &vessels(),
        &vec![session("s-1", "coder", true, Some(SessionPhase::Running), Some(AttentionState::Idle))],
        &vec![duty("coder", CrewWorkPhase::Done)],
    )
    .expect("members");
    assert_eq!((list.convoy.as_str(), list.vessel_ref.as_str(), list.vessel.as_str()), ("convoy-1", "vessel-1", "work"));
    let members = list.members;
    assert_eq!(members.len(), 3);
    assert_eq!((members[0].role.as_str(), members[0].kind.as_str(), members[0].state.as_str()), ("coder", "agent", "active"));
    assert_eq!(members[0].adapter, text("codex"));
    assert_eq!(members[1].state, "latent");
    assert_eq!((members[2].kind.as_str(), members[2].state.as_str()), ("tool", "pending"));
    assert_eq!(
        list_crew(&context(), &vec![], &vec![], &vec![]).err(),
        text("vessel `work` is missing from convoy `convoy-1`")
    );
    let mentioned = handoff_members(&members, "pilot");
    assert_eq!(mentioned[1].state, "active");
    assert!(mentioned[1].is_agent && !mentioned[2].is_agent);
}

#[test]
fn a_decision_ledger_is_a_web_address() {
    assert_eq!(check_decision_ledger(&None), Ok(()));
    assert_eq!(check_decision_ledger(&text("https://example.test/pull/1")), Ok(()));
    assert_eq!(check_decision_ledger(&text("http://example.test")), Ok(()));
    assert_eq!(check_decision_ledger(&text("ftp://x")), Err("decision ledger reference must use an HTTP(S) URL".to_string()));
}

#[test]
fn a_waiting_brief_comes_before_completion() {
    let work = vec![duty("coder", CrewWorkPhase::Working)];
    assert_eq!(
        crew_complete_step(&context(), &text("s-1"), &work, &None),
        CompleteStep::MarkCompleted { clear_session: text("s-1") }
    );
    assert_eq!(
        crew_complete_step(&context(), &text("s-1"), &work, &Some(brief("coder"))),
        CompleteStep::DeliverPending { session_name: "s-1".to_string(), content: "the brief".to_string() }
    );
    assert_eq!(
        crew_complete_step(&context(), &None, &work, &Some(brief("coder"))),
        CompleteStep::Fail { message: "pending brief target `work/coder` has no intact terminal session".to_string() }
    );
    assert_eq!(
        crew_complete_step(&context(), &None, &vec![], &None),
        CompleteStep::Fail { message: "crew work for role `coder` is not defined on vessel `work`".to_string() }
    );
}

#[test]
fn handoffs_stay_within_the_vessel() {
    assert_eq!(handoff_target(&context(), "pilot", &vessels(), &vec![]), Ok(HandoffTarget { vessel_index: 0, crew_index: 1 }));
    let stranger = "no such crew member in your vessel; crew messaging is intra-vessel and requires a different crew member (target \
                    `coder`, vessel `work`)";
    assert_eq!(handoff_target(&context(), "coder", &vessels(), &vec![]), Err(stranger.to_string()));
    assert_eq!(crew_handoff_address_error("coder", "work"), stranger);
    assert_eq!(
        handoff_target(&context(), "server", &vessels(), &vec![]),
        Err("crew target `server` is a tool process and cannot receive a handoff".to_string())
    );
    assert_eq!(
        handoff_target(&context(), "pilot", &vessels(), &vec![duty("pilot", CrewWorkPhase::Failed)]),
        Err("crew target `pilot` has failed work and cannot receive a handoff".to_string())
    );
    assert_eq!(
        handoff_target(&context(), "pilot", &vec![], &vec![]),
        Err("vessel `work` is missing from convoy `convoy-1`".to_string())
    );
    assert_eq!(crew_handoff_message(&context(), "please look"), "handoff from coder@work\n\nplease look");
}

#[test]
fn a_handoff_reaches_a_session_or_starts_one() {
    let present = |is_agent: bool, phase: Option<SessionPhase>| TargetSession::Present { role: "pilot".to_string(), is_agent, phase };
    let step = |existing: TargetSession, caller: Option<&str>, others: &[&str]| {
        handoff_step(
            "pilot",
            "vessel-1",
            &existing,
            &caller.map(str::to_string),
            &others.iter().map(|name| name.to_string()).collect(),
        )
    };
    let fails = |message: &str| HandoffStep::Fail { message: message.to_string() };
    assert_eq!(step(present(true, Some(SessionPhase::Running)), None, &[]), HandoffStep::Queue { restart: false });
    assert_eq!(step(present(true, Some(SessionPhase::Stopped)), None, &[]), HandoffStep::Queue { restart: true });
    assert_eq!(
        step(present(true, Some(SessionPhase::Failed)), None, &[]),
        fails("crew target `pilot` failed provisioning and cannot be revived")
    );
    assert_eq!(step(present(false, None), None, &[]), fails("crew target `pilot` is not an agent session"));
    assert_eq!(step(TargetSession::Absent, Some("s-1"), &["s-2"]), HandoffStep::Launch { anchor: "s-1".to_string() });
    assert_eq!(step(TargetSession::Absent, None, &["s-2"]), HandoffStep::Launch { anchor: "s-2".to_string() });
    assert_eq!(step(TargetSession::Absent, None, &[]), fails("vessel `vessel-1` has no active session to anchor the handoff"));
    assert_eq!(step(TargetSession::Unreadable { error: "down".to_string() }, None, &[]), fails("down"));
}

#[test]
fn a_new_member_gets_an_assignment() {
    assert_eq!(handoff_assignment(&text("do it"), true, true), CrewAssignment::Prompt { text: "do it".to_string() });
    assert_eq!(handoff_assignment(&None, true, true), CrewAssignment::CarriedIssue);
    assert_eq!(handoff_assignment(&None, false, true), CrewAssignment::CarriedChangeRequest);
    assert_eq!(handoff_assignment(&None, false, false), CrewAssignment::Unassigned);
}

#[test]
fn a_brief_names_adopted_checkouts() {
    let mut adopted = OrderedMap::new();
    adopted.insert("repo-a".to_string(), "checkout-1".to_string());
    let roots = crew_brief_repo_roots(
        &vec!["repo-a".to_string(), "repo-b".to_string()],
        &adopted,
        &vec![AdoptedCheckoutPath { name: "checkout-1".to_string(), path: None, target_path: text("/work/app") }],
    );
    assert_eq!(roots, vec!["/work/app"]);
}

#[test]
fn completions_that_were_not_taken_are_found_again() {
    let mut waiting = session("s-1", "coder", true, Some(SessionPhase::Running), None);
    if let Some(status) = waiting.status.as_mut() {
        status.completion_pending = text("done");
    }
    let found = pending_crew_completions(&vec![waiting, session("s-2", "pilot", true, Some(SessionPhase::Running), None)]);
    assert_eq!(found.len(), 1);
    assert_eq!(found[0].session_name, "s-1");
    assert_eq!(found[0].completion, "done");
    assert_eq!(found[0].context.role, text("coder"));
}

fn briefed(phase: ConvoyPhase, work: Vec<CrewDuty>, pending: Option<PendingBrief>) -> Option<BriefedConvoy> {
    Some(BriefedConvoy { phase, work, pending })
}

#[test]
fn a_brief_goes_to_one_crew_member() {
    let both = || vec![duty("coder", CrewWorkPhase::Working), duty("pilot", CrewWorkPhase::Done), duty("scout", CrewWorkPhase::Pending)];
    let target = |c: Option<BriefedConvoy>, role: Option<&str>| resume_target("x", "go", &c, &None, &role.map(str::to_string));
    assert_eq!(target(briefed(ConvoyPhase::Active, both(), None), Some("pilot")), Ok(1));
    assert_eq!(
        target(briefed(ConvoyPhase::Active, both(), None), None),
        Err("convoy `x` has multiple active or completed crew members (work/coder, work/pilot); select one with --vessel and --role"
            .to_string())
    );
    assert_eq!(
        target(briefed(ConvoyPhase::Active, both(), None), Some("scout")),
        Err("convoy `x` has no active or completed crew work for role `scout`".to_string())
    );
    assert_eq!(
        target(briefed(ConvoyPhase::Landed, both(), None), None),
        Err("convoy `x` is in terminal phase `Landed` and cannot accept a brief".to_string())
    );
    assert_eq!(target(None, None), Err("convoy `x` has no status".to_string()));
    assert_eq!(resume_target("x", " ", &None, &None, &None), Err("convoy resume requires a non-empty prompt".to_string()));
}

#[test]
fn briefs_wait_for_the_end_of_a_turn() {
    let working = duty("coder", CrewWorkPhase::Working);
    let busy = Ok(Some(session("s-1", "coder", true, Some(SessionPhase::Running), Some(AttentionState::Working))));
    assert_eq!(
        convoy_resume_step(&working, &Some(brief("pilot")), &busy),
        ResumeStep::Queue { displaced: text("the brief") }
    );
    let idle = Ok(Some(session("s-1", "coder", true, Some(SessionPhase::Running), Some(AttentionState::Idle))));
    assert_eq!(
        convoy_resume_step(&working, &Some(brief("coder")), &idle),
        ResumeStep::Deliver { session_name: "s-1".to_string(), restart: false, displaced: text("the brief") }
    );
    let stopped = Ok(Some(session("s-1", "coder", true, Some(SessionPhase::Stopped), None)));
    assert_eq!(
        convoy_resume_step(&duty("coder", CrewWorkPhase::Done), &None, &stopped),
        ResumeStep::Deliver { session_name: "s-1".to_string(), restart: true, displaced: None }
    );
    let done = duty("coder", CrewWorkPhase::Done);
    let fails = |message: &str| ResumeStep::Fail { message: message.to_string() };
    assert_eq!(
        convoy_resume_step(&done, &None, &Ok(None)),
        fails("crew member `coder` on vessel `work` has no intact terminal session")
    );
    let failed = Ok(Some(session("s-1", "coder", true, Some(SessionPhase::Failed), None)));
    assert_eq!(
        convoy_resume_step(&done, &None, &failed),
        fails("crew member `coder` on vessel `work` failed provisioning and cannot be resumed")
    );
    let tool = Ok(Some(session("s-1", "coder", false, Some(SessionPhase::Running), None)));
    assert_eq!(convoy_resume_step(&done, &None, &tool), fails("crew target `coder` is not an agent session"));
}

#[test]
fn a_resume_reports_what_it_displaced() {
    assert_eq!(resume_outcome(ResumeStep::Queue { displaced: text("old") }), Ok(ConvoyResumeOutcome::Queued { displaced: text("old") }));
    assert_eq!(
        resume_outcome(ResumeStep::Deliver { session_name: "s".to_string(), restart: false, displaced: None }),
        Ok(ConvoyResumeOutcome::Delivered { displaced: None })
    );
    assert_eq!(resume_outcome(ResumeStep::Fail { message: "no".to_string() }), Err("no".to_string()));
}

#[test]
fn a_waiting_brief_can_be_withdrawn() {
    assert_eq!(withdraw_pending_brief("x", &briefed(ConvoyPhase::Active, vec![], Some(brief("coder")))), Ok(text("the brief")));
    assert_eq!(withdraw_pending_brief("x", &briefed(ConvoyPhase::Active, vec![], None)), Ok(None));
    assert_eq!(withdraw_pending_brief("x", &None), Err("convoy `x` has no status".to_string()));
    assert_eq!(
        withdraw_pending_brief("x", &briefed(ConvoyPhase::Failed, vec![], None)),
        Err("convoy `x` is in terminal phase `Failed` and cannot accept message changes".to_string())
    );
}

#[test]
fn messages_have_fresh_identities() {
    let first = pending_crew_message("hello");
    let second = pending_crew_message("hello");
    assert_eq!(first.text, "hello");
    assert_ne!(first.id, second.id);
    assert_eq!(first.id.len(), 36);
}

#[test]
fn a_standing_turn_reaches_a_live_session() {
    let request = || TurnDeliveryRequest {
        vessel: "work".to_string(),
        role: "coder".to_string(),
        source: "pr-7".to_string(),
        head_sha: "abc".to_string(),
        brief: "look again".to_string(),
    };
    assert_eq!(turn_delivery_session_plan(Some(SessionPhase::Running), "work", "coder"), Ok(TurnDeliverySessionPlan::QueueWarm));
    assert_eq!(turn_delivery_session_plan(None, "work", "coder"), Ok(TurnDeliverySessionPlan::QueueFresh));
    assert_eq!(turn_delivery_session_plan(Some(SessionPhase::Stopped), "work", "coder"), Ok(TurnDeliverySessionPlan::RestartFresh));
    let warm = deliver_standing_turn(&request(), &Some(session("s-1", "coder", true, Some(SessionPhase::Running), None))).expect("a turn");
    assert!(warm.warm && !warm.restart && warm.brief.is_none());
    assert_eq!(warm.message.as_ref().map(|m| m.id.as_str()), Some("turn-delivery:pr-7:abc"));
    let stopped =
        deliver_standing_turn(&request(), &Some(session("s-1", "coder", true, Some(SessionPhase::Stopped), None))).expect("a turn");
    assert!(stopped.restart);
    assert_eq!(stopped.brief, text("look again"));
    assert_eq!(
        deliver_standing_turn(&request(), &None).err(),
        text("turn-delivery target work/coder has no durable terminal-session record")
    );
    assert_eq!(
        deliver_standing_turn(&request(), &Some(session("s-1", "coder", false, None, None))).err(),
        text("turn-delivery target work/coder is not an agent")
    );
    assert_eq!(
        deliver_standing_turn(&request(), &Some(session("s-1", "coder", true, Some(SessionPhase::Failed), None))).err(),
        text("turn-delivery target work/coder failed provisioning and cannot be restarted")
    );
}

#[test]
fn held_turns_are_announced_on_the_change_request() {
    let bound = || Some(HeldRequest { id: "7".to_string(), repository_ref: "repo-a".to_string() });
    let repository = |canonical: Result<&str, &str>| HeldRepository {
        repo_ref: "repo-a".to_string(),
        url: "git@x".to_string(),
        canonical: canonical.map(str::to_string).map_err(str::to_string),
    };
    assert_eq!(
        turn_delivery_hold_comment(&bound(), &vec![repository(Ok("https://github.com/acme/app"))], " held \n", "no session"),
        Ok(("7".to_string(), "acme/app".to_string(), "held\n\nno session".to_string()))
    );
    assert_eq!(
        turn_delivery_hold_comment(&None, &vec![], "", ""),
        Err("turn-delivery convoy has no bound change request".to_string())
    );
    assert_eq!(turn_delivery_hold_comment(&bound(), &vec![], "", ""), Err("bound repository repo-a is absent".to_string()));
    assert_eq!(
        turn_delivery_hold_comment(&bound(), &vec![repository(Ok("github.com"))], "", ""),
        Err("cannot derive repository scope from git@x".to_string())
    );
    assert_eq!(turn_delivery_hold_comment(&bound(), &vec![repository(Err("bad"))], "", ""), Err("bad".to_string()));
}

#[test]
fn sessions_carry_the_credentials_of_their_vessel() {
    let names = credential_names();
    let mut annotations = OrderedMap::new();
    let limited = scopes(&[("b\"c", &["y", "x"]), ("a", &[])]);
    terminal_meta_with_vessel_credentials(&mut annotations, &names, &vec!["a".to_string(), "b\"c".to_string()], &limited);
    assert_eq!(annotations.get("refs"), Some(&"[\"a\",\"b\\\"c\"]".to_string()));
    assert_eq!(annotations.get("scopes"), Some(&"{\"a\":[],\"b\\\"c\":[\"y\",\"x\"]}".to_string()));
    let mut none = OrderedMap::new();
    terminal_meta_with_vessel_credentials(&mut none, &names, &vec![], &OrderedMap::new());
    assert_eq!(none.len(), 0);
}

#[test]
fn a_handoff_starts_a_session_with_the_credentials_of_the_vessel() {
    let anchor = SessionAnchor { env_ref: "contained-env".to_string(), cwd: "/workspace".to_string(), pool: "contained".to_string() };
    let hand = |caller: &str, target: &str| {
        let mut from = context();
        from.caller_role = caller.to_string();
        let message = "Please look at the implementation.";
        handoff_session(&from, target, &vessels(), &vec![], &anchor, message, OrderedMap::new(), &credential_names(), "the brief".to_string())
    };
    let pilot = hand("coder", "pilot").expect("a session");
    assert_eq!(pilot.role, "pilot");
    assert_eq!(pilot.selector.adapter, text("other-agent"));
    assert_eq!((pilot.env_ref.as_str(), pilot.cwd.as_str(), pilot.pool.as_str()), ("contained-env", "/workspace", "contained"));
    assert_eq!(pilot.brief, "the brief");
    assert_eq!(pilot.context.namespace, "flotilla");
    assert_eq!((pilot.context.convoy.as_str(), pilot.context.vessel_ref.as_str()), ("convoy-1", "vessel-1"));
    assert_eq!(pilot.message.text, "handoff from coder@work\n\nPlease look at the implementation.");
    assert_eq!((pilot.identity.vessel_index, pilot.identity.crew_index), (0, 1));
    assert_eq!(pilot.identity.labels, vec![("role".to_string(), "pilot".to_string())]);
    assert_eq!(pilot.annotations.get("refs"), Some(&r#"["agent-max","github-crew-pr"]"#.to_string()));
    assert_eq!(pilot.annotations.get("scopes"), Some(&r#"{"agent-max":["repo-a"],"github-crew-pr":["repo-a","repo-b"]}"#.to_string()));
    assert_eq!(hand("pilot", "coder").expect("a session").annotations, pilot.annotations);
    assert_eq!(
        hand("coder", "server").err(),
        text("crew target `server` is a tool process and cannot receive a handoff")
    );
}

#[test]
fn demands_go_with_their_convoy() {
    let demand = |name: &str, target: &str| DemandRecord {
        name: name.to_string(),
        api_version: "v1".to_string(),
        kind: "Convoy".to_string(),
        namespace: "flotilla".to_string(),
        target: target.to_string(),
    };
    let kind = RecordKind { api_version: "v1".to_string(), kind: "Convoy".to_string() };
    assert_eq!(cascaded_demands(&vec![demand("a", "x"), demand("b", "y"), demand("c", "x")], &kind, "flotilla", "x"), vec!["a", "c"]);
    assert_eq!(check_abandon_reason("why"), Ok(()));
    assert_eq!(check_abandon_reason(" \n"), Err("convoy abandon requires a non-empty reason".to_string()));
}

#[test]
fn a_handoff_is_noted_once_it_was_left() {
    let queue = |session: &str, text: &str| CrewEffect::Queue { session: session.to_string(), text: text.to_string() };
    let handed = || CrewEffect::Note {
        note: WorkNote::HandedOff {
            vessel: "work".to_string(),
            from: "coder".to_string(),
            to: "pilot".to_string(),
            message: "look".to_string(),
        },
    };
    let plan = |step: HandoffStep| handoff_plan(&context(), "pilot", "look", "s-2", &step);
    assert_eq!(
        plan(HandoffStep::Queue { restart: true }),
        Ok(vec![
            queue("s-2", "handoff from coder@work\n\nlook"),
            CrewEffect::Restart { session: "s-2".to_string() },
            handed(),
        ])
    );
    assert_eq!(
        plan(HandoffStep::Launch { anchor: "s-1".to_string() }),
        Ok(vec![CrewEffect::Start { anchor: "s-1".to_string() }, handed()])
    );
    assert_eq!(plan(HandoffStep::Fail { message: "no".to_string() }), Err("no".to_string()));
    let effects = plan(HandoffStep::Queue { restart: false }).expect("effects");
    assert_eq!(next_effect(&effects, &vec![]), PlanTurn::Take { at: 0 });
    assert_eq!(next_effect(&effects, &vec![Ok(())]), PlanTurn::Take { at: 1 });
    assert_eq!(next_effect(&effects, &vec![Err("down".to_string())]), PlanTurn::Fail { message: "down".to_string() });
    assert_eq!(next_effect(&effects, &vec![Ok(()), Ok(())]), PlanTurn::Done);
}

#[test]
fn a_brief_is_left_with_the_session_or_waits() {
    let target = duty("coder", CrewWorkPhase::Working);
    let (vessel, role) = (|| "work".to_string(), || "coder".to_string());
    assert_eq!(
        resume_plan(&target, "go on", &ResumeStep::Queue { displaced: None }),
        Ok(vec![CrewEffect::Note { note: WorkNote::BriefQueued { vessel: vessel(), role: role(), content: "go on".to_string() } }])
    );
    let deliver = ResumeStep::Deliver { session_name: "s-1".to_string(), restart: true, displaced: text("old") };
    assert_eq!(
        resume_plan(&target, "go on", &deliver),
        Ok(vec![
            CrewEffect::Queue { session: "s-1".to_string(), text: "go on".to_string() },
            CrewEffect::Restart { session: "s-1".to_string() },
            CrewEffect::Note { note: WorkNote::Resumed { vessel: vessel(), role: role(), prompt: "go on".to_string() } },
        ])
    );
    assert_eq!(resume_plan(&target, "go on", &ResumeStep::Fail { message: "no".to_string() }), Err("no".to_string()));
}

#[test]
fn a_completion_is_noted_before_it_is_forgotten() {
    let said = || Completion { message: text("done"), disposition: None, decision_ledger_ref: text("https://x") };
    let clear = || CrewEffect::ClearCompletion { session: "s-1".to_string() };
    let pending = CompleteStep::DeliverPending { session_name: "s-1".to_string(), content: "next".to_string() };
    assert_eq!(
        completion_plan(&context(), &said(), &pending),
        Ok(vec![
            CrewEffect::Queue { session: "s-1".to_string(), text: "next".to_string() },
            CrewEffect::Note {
                note: WorkNote::PendingDelivered {
                    vessel: "work".to_string(),
                    role: "coder".to_string(),
                    content: "next".to_string(),
                    said: said(),
                },
            },
            clear(),
        ])
    );
    let noted = || CrewEffect::Note {
        note: WorkNote::Completed { vessel: "work".to_string(), role: "coder".to_string(), said: said() },
    };
    let finish = |session: Option<String>| completion_plan(&context(), &said(), &CompleteStep::MarkCompleted { clear_session: session });
    assert_eq!(finish(text("s-1")), Ok(vec![noted(), clear()]));
    assert_eq!(finish(None), Ok(vec![noted()]));
    assert_eq!(
        completion_plan(&context(), &said(), &CompleteStep::Fail { message: "no".to_string() }),
        Err("no".to_string())
    );
}
