use flotilla_core::ensure::{
    check_convoy_provenance, check_no_exit, driver_condition_changed, driver_condition_recorded, driver_reachable,
    driver_route, ensure_attention_is_active, ensure_config_hash, ensure_demand_name, ensure_retry_delay, ensured_convoy_annotations,
    ensured_convoy_slot, ensures_outcome, find_live_convoy, home_route, observe_config, read_demand, reconcile_convoy_ensure,
    reconcile_driver_convoy_ensure, report_start, retire_ensure, sort_generations, verify_standing_convoy_resource_backing_dead, BackingEnvironment,
    ConfigStep, DemandReading, DemandState, DrivenGeneration, DriverHost, DriverReading, DriverRoute, DriverStep, EnsureActions,
    EnsureAnnotationNames, EnsureAttention, EnsureCondition, EnsurePass, EnsurePatch, EnsureReadings, EnsureStatus, EnsureStep, EnsuredConvoy,
    HomeRoute, PassEvent, ProjectAuthority, ReapReading, RetireStep,
};
use flotilla_core::creation::ConvoyAutoAttach;
use flotilla_core::ensure_start::{ensured_admission, start_ensured_convoy, EnsureRequest, EnsuredReading, EnsuredStartReadings, EnsuredStartStep, SnapshotNames};
use flotilla_core::materialize::AnnotationNames;
use flotilla_core::model::ConvoyPhase;
use flotilla_core::ordered::OrderedMap;
use flotilla_core::time::Timestamp;

fn text(value: &str) -> Option<String> {
    Some(value.to_string())
}

fn noon() -> Timestamp {
    Timestamp::at(1786795200, 0).expect("an instant")
}

fn after_noon(secs: u32) -> Timestamp {
    noon().plus_secs(secs).expect("an instant")
}

fn status() -> EnsureStatus {
    EnsureStatus {
        observed_config_hash: text("hash"),
        convoy_ref: text("convoy-1"),
        restart_count: 0,
        retry_at: None,
        last_failure: None,
        running_since: Some(noon()),
        restart_limit_hold: false,
    }
}

fn convoy(name: &str, phase: Option<ConvoyPhase>) -> EnsuredConvoy {
    EnsuredConvoy {
        name: name.to_string(),
        project_ref: text("standing-project"),
        role: "quartermaster".to_string(),
        generation: 1,
        ensured_from: text("quartermaster"),
        phase,
    }
}

fn asked(attention_open: Option<bool>, backing_dead: Option<Result<(), String>>) -> EnsureReadings {
    EnsureReadings { attention_open, backing_dead }
}

fn decide(status: &EnsureStatus, phase: Option<ConvoyPhase>, now: &Timestamp, readings: EnsureReadings) -> EnsureActions {
    match reconcile_convoy_ensure("quartermaster", status, &Some(convoy("convoy-1", phase)), now, &readings) {
        EnsureStep::Act { actions } => actions,
        other => panic!("{other:?}"),
    }
}

#[test]
fn retries_wait_longer_each_time() {
    let delays: Vec<u32> = (0..7).map(ensure_retry_delay).collect();
    assert_eq!(delays, vec![30, 60, 120, 240, 480, 900, 900]);
    assert_eq!(ensure_retry_delay(u32::MAX), 900);
}

#[test]
fn a_changed_configuration_starts_afresh() {
    let hash = ensure_config_hash(&b"abc".to_vec());
    assert!(hash.contains("ba7816bf8f01cfea"));
    let mut failing = status();
    failing.restart_count = 2;
    failing.retry_at = Some(noon());
    let (same, step) = observe_config(failing, "hash");
    assert_eq!(step, ConfigStep::Same);
    assert_eq!(same.restart_count, 2);
    let (changed, step) = observe_config(same, "other");
    assert_eq!(step, ConfigStep::Observe { changed: true });
    assert_eq!(changed.restart_count, 0);
    assert_eq!(changed.observed_config_hash, text("other"));
    let mut fresh = status();
    fresh.observed_config_hash = None;
    assert_eq!(observe_config(fresh, "hash").1, ConfigStep::Observe { changed: false });
}

#[test]
fn a_missing_convoy_is_started_unless_it_waits() {
    match reconcile_convoy_ensure("quartermaster", &status(), &None, &noon(), &asked(None, None)) {
        EnsureStep::Act { actions } => assert!(actions.start && actions.clear),
        other => panic!("{other:?}"),
    }
    let mut waiting = status();
    waiting.retry_at = Some(after_noon(30));
    match reconcile_convoy_ensure("quartermaster", &waiting, &None, &noon(), &asked(None, None)) {
        EnsureStep::Act { actions } => assert!(!actions.start && !actions.clear && actions.patch.is_none()),
        other => panic!("{other:?}"),
    }
}

#[test]
fn a_running_convoy_is_observed_once() {
    let mut unseen = status();
    unseen.convoy_ref = None;
    let actions = decide(&unseen, Some(ConvoyPhase::Active), &noon(), asked(None, None));
    assert_eq!(actions.patch, Some(EnsurePatch::Running { convoy_ref: "convoy-1".to_string(), observed_at: noon() }));
    assert_eq!(actions.change, text("ConvoyEnsure/quartermaster observed running"));
    let actions = decide(&status(), Some(ConvoyPhase::Active), &noon(), asked(None, None));
    assert_eq!((actions.patch, actions.change), (None, None));
    let mut restarted = status();
    restarted.restart_count = 2;
    let actions = decide(&restarted, Some(ConvoyPhase::Active), &after_noon(900), asked(None, None));
    assert_eq!(actions.patch, Some(EnsurePatch::ResetBackoff));
    assert_eq!(actions.change, text("ConvoyEnsure/quartermaster reset restart backoff"));
}

#[test]
fn a_failed_convoy_is_held_while_its_backing_lives() {
    assert_eq!(
        reconcile_convoy_ensure(
            "quartermaster",
            &status(),
            &Some(convoy("convoy-1", Some(ConvoyPhase::Failed))),
            &noon(),
            &asked(None, None)
        ),
        EnsureStep::AskBacking
    );
    let held = decide(&status(), Some(ConvoyPhase::Failed), &noon(), asked(None, Some(Err("it lives".to_string()))));
    assert!(!held.start);
    assert_eq!(
        held.raise,
        Some(EnsureAttention { reason: "standing convoy teardown held: it lives".to_string(), escalates_at: None })
    );
    assert_eq!(held.change, text("ConvoyEnsure/quartermaster held for operator attention"));
}

#[test]
fn a_dead_convoy_backs_off_and_restarts() {
    let backing_off = decide(&status(), Some(ConvoyPhase::Failed), &noon(), asked(None, Some(Ok(()))));
    assert_eq!(
        backing_off.patch,
        Some(EnsurePatch::BackingOff {
            retry_at: after_noon(30),
            failure: "ensured convoy entered a terminal failure phase".to_string()
        })
    );
    assert_eq!(backing_off.change, text("ConvoyEnsure/quartermaster backing off until 2026-08-15 12:00:30 UTC"));
    let mut waiting = status();
    waiting.retry_at = Some(after_noon(30));
    assert!(!decide(&waiting, Some(ConvoyPhase::Failed), &after_noon(29), asked(None, Some(Ok(())))).start);
    assert!(decide(&waiting, Some(ConvoyPhase::Failed), &after_noon(30), asked(None, Some(Ok(())))).start);
}

#[test]
fn an_abandoned_convoy_needs_no_evidence_of_death() {
    let actions = decide(&status(), Some(ConvoyPhase::Abandoned), &noon(), asked(None, None));
    assert!(matches!(actions.patch, Some(EnsurePatch::BackingOff { .. })));
}

#[test]
fn the_restart_budget_ends_in_a_call_for_attention() {
    let mut failing = status();
    failing.restart_count = 2;
    let actions = decide(&failing, Some(ConvoyPhase::Failed), &noon(), asked(None, Some(Ok(()))));
    let failure = "ensured convoy entered a terminal failure phase; 3 consecutive generations failed".to_string();
    assert_eq!(
        actions.patch,
        Some(EnsurePatch::RestartLimitReached { convoy_ref: "convoy-1".to_string(), failure: failure.clone() })
    );
    assert_eq!(actions.raise.map(|a| a.reason), Some(failure));
    assert_eq!(actions.change, text("ConvoyEnsure/quartermaster exhausted restart budget"));
    failing.restart_limit_hold = true;
    assert_eq!(
        reconcile_convoy_ensure(
            "quartermaster",
            &failing,
            &Some(convoy("convoy-1", Some(ConvoyPhase::Failed))),
            &noon(),
            &asked(None, None)
        ),
        EnsureStep::AskAttention
    );
    assert_eq!(decide(&failing, Some(ConvoyPhase::Failed), &noon(), asked(Some(true), None)).patch, None);
    let cleared = decide(&failing, Some(ConvoyPhase::Failed), &noon(), asked(Some(false), None));
    assert_eq!(cleared.patch, Some(EnsurePatch::ResetBackoff));
    assert_eq!(cleared.change, text("ConvoyEnsure/quartermaster restart hold cleared"));
}

#[test]
fn a_start_is_reported() {
    let (patch, report) = report_start(&Ok("convoy-2".to_string()), "quartermaster", "standing-project", 1, &noon());
    assert_eq!(patch, EnsurePatch::Running { convoy_ref: "convoy-2".to_string(), observed_at: noon() });
    assert_eq!(report, Ok(text("started quartermaster@standing-project")));
    let (patch, report) = report_start(&Err("no disk".to_string()), "quartermaster", "standing-project", 1, &noon());
    assert_eq!(patch, EnsurePatch::Retrying { retry_at: after_noon(60), failure: "no disk".to_string() });
    assert_eq!(report, Err("start failed; retry at 2026-08-15 12:01:00 UTC: no disk".to_string()));
}

fn generation(number: u64, phase: Option<ConvoyPhase>) -> DrivenGeneration {
    DrivenGeneration { generation: number, phase, created_at: noon(), name: format!("convoy-{number}") }
}

fn drive(
    generations: Vec<DrivenGeneration>,
    demand: Option<DemandReading>,
    backing: Option<Result<(), String>>,
    now: Timestamp,
) -> DriverStep {
    reconcile_driver_convoy_ensure("quartermaster", "quartermaster", "fleet", &generations, demand, &backing, &now)
}

#[test]
fn a_driver_runs_one_generation_at_a_time() {
    assert_eq!(drive(vec![generation(1, Some(ConvoyPhase::Active))], None, None, noon()), DriverStep::Idle);
    assert_eq!(drive(vec![], None, None, noon()), DriverStep::AskDemand);
    assert_eq!(
        drive(vec![], Some(DemandReading::Absent), None, noon()),
        DriverStep::Start { forget_demand: false, change: "started quartermaster@fleet".to_string() }
    );
    let failed = || vec![generation(1, Some(ConvoyPhase::Failed))];
    assert_eq!(drive(failed(), Some(DemandReading::Open), None, noon()), DriverStep::Idle);
    assert_eq!(drive(failed(), Some(DemandReading::Absent), None, noon()), DriverStep::AskBacking);
    assert_eq!(
        drive(failed(), Some(DemandReading::Absent), Some(Err("it lives".to_string())), noon()),
        DriverStep::Fail { message: "it lives".to_string() }
    );
    assert_eq!(drive(failed(), Some(DemandReading::Absent), Some(Ok(())), after_noon(29)), DriverStep::Idle);
    assert!(matches!(drive(failed(), Some(DemandReading::Absent), Some(Ok(())), after_noon(30)), DriverStep::Start { .. }));
    assert_eq!(
        drive(failed(), Some(DemandReading::Resolved), None, noon()),
        DriverStep::Start { forget_demand: true, change: "started quartermaster@fleet".to_string() }
    );
}

#[test]
fn a_driver_gives_up_after_three_failures() {
    let failed = (1..4).map(|n| generation(n, Some(ConvoyPhase::Failed))).collect();
    match drive(failed, Some(DemandReading::Absent), None, noon()) {
        DriverStep::Exhausted { attention, change } => {
            assert_eq!(attention.reason, "ensured convoy entered a terminal failure phase; 3 consecutive generations failed");
            assert_eq!(change, "ConvoyEnsure/quartermaster exhausted restart budget");
        }
        other => panic!("{other:?}"),
    }
    let sorted = sort_generations(vec![generation(2, None), generation(1, None)]);
    assert_eq!(sorted[0].generation, 1);
}

#[test]
fn a_driver_must_be_known_and_reachable() {
    let reading = |target: Result<Option<&str>, &str>, reachable: Result<bool, &str>| DriverReading {
        target: target.map(|t| t.map(str::to_string)).map_err(str::to_string),
        reachable: reachable.map_err(str::to_string),
    };
    let route = |r: DriverReading| driver_route("quartermaster", "kiwi", &r, &text("host-1"));
    let condition = |reason: &str, message: &str| DriverRoute::Condition { reason: reason.to_string(), message: message.to_string() };
    assert_eq!(route(reading(Ok(Some("host-1")), Ok(true))), DriverRoute::Drive);
    assert_eq!(route(reading(Ok(Some("host-2")), Ok(true))), DriverRoute::ClearCondition);
    assert_eq!(route(reading(Ok(Some("host-2")), Ok(false))), condition("DriverUnreachable", "driver host `kiwi` is not reachable"));
    assert_eq!(route(reading(Ok(None), Ok(true))), condition("UnknownDriver", "driver host `kiwi` is unknown"));
    assert_eq!(
        route(reading(Err("two"), Ok(true))),
        condition("DriverUnreachable", "driver host `kiwi` could not be resolved: two")
    );
    assert_eq!(
        route(reading(Ok(Some("host-2")), Err("down"))),
        DriverRoute::Fail {
            message: "ConvoyEnsure/quartermaster: could not inspect driver host `kiwi` reachability: down".to_string()
        }
    );
    let hosts = vec![DriverHost { name: "host-1".to_string(), ready: Some(true) }, DriverHost { name: "host-2".to_string(), ready: None }];
    assert!(driver_reachable(&hosts, "host-1"));
    assert!(!driver_reachable(&hosts, "host-2"));
    assert!(!driver_reachable(&hosts, "host-3"));
}

#[test]
fn a_condition_is_recorded_when_it_changes() {
    let conditions = vec![EnsureCondition {
        condition_type: "Driver".to_string(),
        reason: "UnknownDriver".to_string(),
        message: "gone".to_string(),
    }];
    assert!(!driver_condition_changed(&conditions, "Driver", "UnknownDriver", "gone"));
    assert!(driver_condition_changed(&conditions, "Driver", "UnknownDriver", "back"));
    assert!(driver_condition_changed(&vec![], "Driver", "UnknownDriver", "gone"));
    assert!(driver_condition_recorded(&conditions, "Driver"));
    assert!(!driver_condition_recorded(&conditions, "Other"));
}

#[test]
fn only_the_home_of_a_project_keeps_its_convoys() {
    let fails = |message: &str| HomeRoute::Fail { message: message.to_string() };
    assert_eq!(home_route("q", "fleet", &ProjectAuthority::Here), HomeRoute::Reconcile);
    assert_eq!(home_route("q", "fleet", &ProjectAuthority::Elsewhere), HomeRoute::Skip);
    assert_eq!(home_route("q", "fleet", &ProjectAuthority::Absent), fails("ConvoyEnsure/q: parent Project/fleet is absent"));
    assert_eq!(
        home_route("q", "fleet", &ProjectAuthority::LocalUnreadable { error: "down".to_string() }),
        fails("ConvoyEnsure/q: could not verify local Project/fleet authority: down")
    );
    assert_eq!(
        home_route("q", "fleet", &ProjectAuthority::Unreadable { error: "down".to_string() }),
        fails("ConvoyEnsure/q: could not resolve Project/fleet authority: down")
    );
}

#[test]
fn one_failed_ensure_does_not_hide_the_others() {
    let texts = |items: &[&str]| items.iter().map(|i| i.to_string()).collect::<Vec<String>>();
    assert_eq!(ensures_outcome(texts(&["a"]), &vec![]), Ok(texts(&["a"])));
    assert_eq!(ensures_outcome(vec![], &texts(&["x", "y"])), Err("x; y".to_string()));
    assert_eq!(ensures_outcome(texts(&["a", "b"]), &texts(&["x"])), Err("x; successful changes: a, b".to_string()));
}

#[test]
fn backing_is_dead_when_every_environment_failed() {
    let environment = |name: &str, phase: Option<&str>| BackingEnvironment { name: name.to_string(), phase: phase.map(str::to_string) };
    assert_eq!(verify_standing_convoy_resource_backing_dead(&vec![environment("a", Some("Failed"))]), Ok(()));
    assert_eq!(
        verify_standing_convoy_resource_backing_dead(&vec![]),
        Err("no backing environment evidence is available".to_string())
    );
    assert_eq!(
        verify_standing_convoy_resource_backing_dead(&vec![
            environment("a", Some("Failed")),
            environment("b", Some("Ready")),
            environment("c", None)
        ]),
        Err("backing is not verified dead: Environment/b is Ready, Environment/c is Pending".to_string())
    );
}

#[test]
fn a_standing_convoy_has_no_exit_and_one_owner() {
    assert_eq!(check_no_exit("work", false), Ok(()));
    assert_eq!(
        check_no_exit("work", true),
        Err("workflow template work declares an exit table; standing convoys require no exit declaration".to_string())
    );
    let live = |from: Option<&str>| {
        let mut c = convoy("convoy-1", Some(ConvoyPhase::Active));
        c.ensured_from = from.map(str::to_string);
        c
    };
    assert_eq!(ensured_convoy_slot(&vec![live(Some("q"))], "q", "standing-project", "quartermaster"), Ok(Some(0)));
    assert_eq!(
        ensured_convoy_slot(&vec![live(None)], "q", "standing-project", "quartermaster"),
        Err("live convoy quartermaster@standing-project already exists outside this ensure".to_string())
    );
    assert_eq!(ensured_convoy_slot(&vec![], "q", "standing-project", "quartermaster"), Ok(None));
    assert_eq!(check_convoy_provenance("convoy-1", &text("q"), "q"), Ok(()));
    assert_eq!(
        check_convoy_provenance("convoy-1", &None, "q"),
        Err("convoy convoy-1 exists without this ensure's provenance".to_string())
    );
    assert_eq!(find_live_convoy(&vec![live(Some("other")), live(Some("q"))], "q"), Some(1));
}

#[test]
fn demands_are_open_until_settled() {
    assert_eq!(ensure_demand_name("q"), "ensure-attention-q");
    assert_eq!(read_demand(&None), DemandReading::Absent);
    assert_eq!(read_demand(&Some(Some(DemandState::Settled))), DemandReading::Resolved);
    assert_eq!(read_demand(&Some(Some(DemandState::Raised))), DemandReading::Open);
    assert!(ensure_attention_is_active(&Some(Some(DemandState::Escalated))));
    assert!(!ensure_attention_is_active(&Some(Some(DemandState::Settled))));
    assert!(!ensure_attention_is_active(&None));
}

#[test]
fn an_ensured_convoy_says_where_it_is_from() {
    let names = AnnotationNames {
        materialized_project: "project".to_string(),
        source_repository: "repository".to_string(),
        source_commit: "commit".to_string(),
        source_entry_path: "path".to_string(),
        presents_as: "presents-as".to_string(),
    };
    let ensure_names = EnsureAnnotationNames { ensured_from: "ensured-from".to_string(), provenance: "provenance".to_string() };
    let mut own = OrderedMap::new();
    assert_eq!(
        ensured_convoy_annotations(&own, "q", &None, &ensure_names, &names).err(),
        text("materialized ensure has no source commit provenance")
    );
    own.insert("commit".to_string(), "abc123".to_string());
    let annotations = ensured_convoy_annotations(&own, "q", &text("Fleet"), &ensure_names, &names).expect("annotations");
    assert_eq!(annotations.get("ensured-from"), Some(&"q".to_string()));
    assert_eq!(annotations.get("provenance"), Some(&"ensured from q @ abc123".to_string()));
    assert_eq!(annotations.get("presents-as"), Some(&"Fleet".to_string()));
}

#[test]
fn a_failed_ensure_does_not_stop_the_others() {
    let mut pass = EnsurePass::new();
    pass.note("a", PassEvent::Reconciled { change: text("started a@fleet") });
    pass.note("b", PassEvent::Failed { error: "no host".to_string() });
    pass.note("c", PassEvent::Reconciled { change: None });
    pass.note("d", PassEvent::ConditionUnrecorded { error: "conflict".to_string() });
    pass.note("e", PassEvent::ConditionUncleared { error: "conflict".to_string() });
    pass.note("f", PassEvent::Unrouted { message: "ConvoyEnsure/f: parent Project/x is absent".to_string() });
    pass.note("g", PassEvent::Passed);
    pass.note("h", PassEvent::Reconciled { change: text("started h@fleet") });
    assert_eq!(
        pass.outcome(),
        Err("ConvoyEnsure/b: no host; ConvoyEnsure/d: could not record driver condition: conflict; \
             ConvoyEnsure/e: could not clear driver condition: conflict; ConvoyEnsure/f: parent Project/x is absent; \
             successful changes: started a@fleet, started h@fleet"
            .to_string())
    );
    assert_eq!(EnsurePass::new().outcome(), Ok(vec![]));
}

#[test]
fn an_ensure_asks_for_its_own_convoy() {
    let request = EnsureRequest {
        name: "quartermaster".to_string(),
        project_ref: "standing-project".to_string(),
        role: "quartermaster".to_string(),
        workflow_ref: "standing".to_string(),
        placement_policy: text("local"),
        repositories: vec!["repo-a".to_string(), "repo-b".to_string()],
        stance: text("trusted"),
        presents_as: text("Quartermaster"),
        annotations: OrderedMap::new(),
    };
    let admission = ensured_admission("flotilla", &request);
    assert_eq!(admission.intent.namespace, text("flotilla"));
    assert_eq!(admission.intent.project_ref, "standing-project");
    assert_eq!(admission.intent.name, text("quartermaster"));
    assert_eq!(admission.intent.branch, text("quartermaster"));
    assert_eq!(admission.intent.workflow_ref, text("standing"));
    assert_eq!(admission.intent.placement_policy, text("local"));
    assert!(admission.intent.inputs.is_empty() && admission.intent.issues.is_empty());
    assert_eq!((admission.intent.instruction, admission.intent.change_request), (None, None));
    assert_eq!(admission.repositories, vec!["repo-a".to_string(), "repo-b".to_string()]);
    assert_eq!(admission.stance, text("trusted"));
    assert_eq!(admission.auto_attach, ConvoyAutoAttach::Never);
}

#[test]
fn an_ensure_goes_after_its_convoy() {
    let found = |from: Option<&str>| Some(ReapReading::Found { ensured_from: from.map(str::to_string) });
    let refuse = |message: &str| RetireStep::Refuse { message: message.to_string() };
    let convoy = text("convoy-1");
    assert_eq!(retire_ensure("q", &None, &None, &None), RetireStep::Delete);
    assert_eq!(retire_ensure("q", &convoy, &None, &None), RetireStep::AskConvoy { convoy: "convoy-1".to_string() });
    assert_eq!(retire_ensure("q", &convoy, &Some(ReapReading::Absent), &None), RetireStep::Delete);
    assert_eq!(retire_ensure("q", &convoy, &Some(ReapReading::Unreadable { error: "down".to_string() }), &None), refuse("down"));
    assert_eq!(
        retire_ensure("q", &convoy, &found(None), &None),
        refuse("refusing to reap standing convoy: it is not owned by ConvoyEnsure/q")
    );
    assert_eq!(
        retire_ensure("q", &convoy, &found(Some("q")), &None),
        RetireStep::Reap { convoy: "convoy-1".to_string(), force: false }
    );
    assert_eq!(retire_ensure("q", &convoy, &found(Some("q")), &Some(Err("dirty".to_string()))), refuse("dirty"));
    assert_eq!(retire_ensure("q", &convoy, &found(Some("q")), &Some(Ok(()))), RetireStep::Delete);
}

#[test]
fn a_generation_is_started_step_by_step() {
    let names = AnnotationNames {
        materialized_project: "project".to_string(),
        source_repository: "repository".to_string(),
        source_commit: "commit".to_string(),
        source_entry_path: "path".to_string(),
        presents_as: "presents-as".to_string(),
    };
    let ensure_names = EnsureAnnotationNames { ensured_from: "ensured-from".to_string(), provenance: "provenance".to_string() };
    let snapshots = SnapshotNames { workflow: "workflow".to_string(), placement: "placement".to_string() };
    let mut request = EnsureRequest {
        name: "quartermaster".to_string(),
        project_ref: "standing-project".to_string(),
        role: "quartermaster".to_string(),
        workflow_ref: "standing".to_string(),
        placement_policy: text("local"),
        repositories: vec!["repo-a".to_string()],
        stance: text("contained"),
        presents_as: None,
        annotations: OrderedMap::new(),
    };
    let mut rd = EnsuredStartReadings {
        admission: None,
        local_space: None,
        remote_space: None,
        convoys: None,
        generation: None,
        workflow: None,
        placement: None,
        created: None,
    };
    let step = |request: &EnsureRequest, rd: &EnsuredStartReadings| start_ensured_convoy("flotilla", request, rd, &ensure_names, &names, &snapshots);
    let failure = |step: EnsuredStartStep| match step {
        EnsuredStartStep::Fail { message } => message,
        other => panic!("{other:?}"),
    };
    match step(&request, &rd) {
        EnsuredStartStep::Prepare { admission } => {
            assert_eq!(admission.intent.workflow_ref, text("standing"));
            assert_eq!(admission.stance, text("contained"));
        }
        other => panic!("{other:?}"),
    }
    rd.admission = Some(Ok(EnsuredReading { has_exit: true, decision: None }));
    assert!(matches!(step(&request, &rd), EnsuredStartStep::CheckLocalSpace));
    rd.local_space = Some(Ok(()));
    assert!(matches!(step(&request, &rd), EnsuredStartStep::CheckRemoteSpace { decision: None }));
    rd.remote_space = Some(Ok(()));
    assert_eq!(
        failure(step(&request, &rd)),
        "workflow template standing declares an exit table; standing convoys require no exit declaration"
    );
    rd.admission = Some(Ok(EnsuredReading { has_exit: false, decision: None }));
    assert_eq!(failure(step(&request, &rd)), "materialized ensure has no source commit provenance");
    request.annotations.insert("commit".to_string(), "abc123".to_string());
    assert!(matches!(step(&request, &rd), EnsuredStartStep::ListConvoys));
    rd.convoys = Some(Ok(vec![convoy("convoy-1", None)]));
    assert!(matches!(step(&request, &rd), EnsuredStartStep::Standing { convoy } if convoy == "convoy-1"));
    let mut foreign = convoy("convoy-2", None);
    foreign.ensured_from = None;
    rd.convoys = Some(Ok(vec![foreign]));
    assert_eq!(failure(step(&request, &rd)), "live convoy quartermaster@standing-project already exists outside this ensure");
    rd.convoys = Some(Ok(vec![convoy("convoy-1", Some(ConvoyPhase::Failed))]));
    assert!(matches!(step(&request, &rd), EnsuredStartStep::Allocate));
    rd.generation = Some(Ok(4));
    assert!(matches!(step(&request, &rd), EnsuredStartStep::SnapshotWorkflow));
    rd.workflow = Some(Ok("workflow-snapshot-1".to_string()));
    assert!(matches!(step(&request, &rd), EnsuredStartStep::SnapshotPlacement));
    rd.placement = Some(Ok(None));
    match step(&request, &rd) {
        EnsuredStartStep::Create { generation, annotations } => {
            assert_eq!(generation, 4);
            assert_eq!(annotations.get("workflow"), Some(&"workflow-snapshot-1".to_string()));
            assert_eq!(annotations.get("placement"), None);
            assert_eq!(annotations.get("provenance"), Some(&"ensured from quartermaster @ abc123".to_string()));
        }
        other => panic!("{other:?}"),
    }
    rd.created = Some(Ok("convoy-9".to_string()));
    assert!(matches!(step(&request, &rd), EnsuredStartStep::Standing { convoy } if convoy == "convoy-9"));
}

#[test]
fn standing_ensure_holds_failed_convoy_while_backing_is_live_then_restarts_after_verified_death() {
    let backing = |phase: &str| vec![BackingEnvironment { name: "quartermaster-work".to_string(), phase: text(phase) }];
    let live = verify_standing_convoy_resource_backing_dead(&backing("Ready"));
    let mut ensure = status();
    let held = decide(&ensure, Some(ConvoyPhase::Failed), &noon(), asked(None, Some(live)));
    assert_eq!(held.change, text("ConvoyEnsure/quartermaster held for operator attention"));
    match held.patch {
        Some(EnsurePatch::Holding { convoy_ref, failure }) => {
            assert_eq!(convoy_ref, "convoy-1");
            assert!(failure.contains("not verified dead"));
            ensure.last_failure = Some(failure);
        }
        other => panic!("{other:?}"),
    }
    let live = verify_standing_convoy_resource_backing_dead(&backing("Ready"));
    let still = decide(&ensure, Some(ConvoyPhase::Failed), &after_noon(3600), asked(None, Some(live)));
    assert_eq!((still.start, still.change), (false, None));

    let dead = || verify_standing_convoy_resource_backing_dead(&backing("Failed"));
    let crashed = decide(&ensure, Some(ConvoyPhase::Failed), &after_noon(3600), asked(None, Some(dead())));
    match crashed.patch {
        Some(EnsurePatch::BackingOff { retry_at, .. }) => {
            assert_eq!(retry_at, after_noon(3630));
            ensure.retry_at = Some(retry_at);
            ensure.restart_count = 1;
        }
        other => panic!("{other:?}"),
    }
    assert!(decide(&ensure, Some(ConvoyPhase::Failed), &after_noon(3630), asked(None, Some(dead()))).start);
    let (patch, report) = report_start(&Ok("convoy-2".to_string()), "quartermaster", "standing-project", 1, &after_noon(3630));
    assert_eq!(patch, EnsurePatch::Running { convoy_ref: "convoy-2".to_string(), observed_at: after_noon(3630) });
    assert_eq!(report, Ok(text("started quartermaster@standing-project")));
}

#[test]
fn operator_reap_restarts_immediately_without_burning_budget_and_past_due_retry_survives_restart() {
    let act = |ensure: &EnsureStatus, now: &Timestamp| match reconcile_convoy_ensure("quartermaster", ensure, &None, now, &asked(None, None)) {
        EnsureStep::Act { actions } => actions,
        other => panic!("{other:?}"),
    };
    let mut ensure = status();
    ensure.restart_count = 7;
    let reaped = act(&ensure, &noon());
    assert_eq!((reaped.start, reaped.patch), (true, None));
    let (patch, report) = report_start(&Err("no workflow".to_string()), "quartermaster", "standing-project", 7, &noon());
    assert!(report.is_err());
    let retry_at = match patch {
        EnsurePatch::Retrying { retry_at, .. } => retry_at,
        other => panic!("{other:?}"),
    };
    ensure.retry_at = Some(retry_at);
    assert!(!act(&ensure, &noon()).start);
    assert!(act(&ensure, &retry_at).start);
    assert_eq!(ensure.restart_count, 7);
}
