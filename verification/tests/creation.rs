use flotilla_core::admission::StartingConvoy;
use flotilla_core::admission_workflow::GrantReading;
use flotilla_core::creation::{
    convoy_create_step, convoy_labels, ensure_default_workflows, first_wait_error, prepared_snapshot_name, prepared_snapshot_step, resolve_direct_repository,
    run_convoy_start, should_auto_attach, wait_for_convoy_attach, AdoptedReading, ConvoyAutoAttach, ConvoyLabelNames, CreateAsk,
    CreateReadings, CreateRecord, CreateRequest, CreateStep, DirectReading, SeedOutcome, SnapshotReading, StartAdmission, StartReadings, StartStep, WaitEvent, WaitStep,
};
use flotilla_core::model::{ConvoyPhase, PlacementTargetHost};
use flotilla_core::ordered::{OrderedMap, OrderedSet};
use flotilla_core::placement::{DockerPolicy, HostReadiness, PlacementPolicy, PolicyReading};
use flotilla_core::placing::{PlacementAsk, PlacementReadings};
use flotilla_core::projects::ConvoyRepository;
use flotilla_core::workflow::{CredentialGrant, WorkflowVessel};

fn text(value: &str) -> Option<String> {
    Some(value.to_string())
}

fn request() -> CreateRequest {
    CreateRequest {
        role: "governor".to_string(),
        workflow_ref: "work".to_string(),
        inputs: vec![("depth".to_string(), "2".to_string())],
        dispatching_principal: text("operator"),
        project_ref: text("fleet"),
        repository_url: None,
        git_ref: text("main"),
        placement_policy: None,
        adopt: false,
    }
}

fn repository(repo_ref: &str) -> ConvoyRepository {
    ConvoyRepository {
        url: format!("https://{repo_ref}"),
        repo_ref: repo_ref.to_string(),
        source_ref: "main".to_string(),
        target_ref: "main".to_string(),
        workspace_slug: repo_ref.to_string(),
        subpaths: vec![],
    }
}

fn policy(name: &str) -> PolicyReading {
    PolicyReading {
        policy: PlacementPolicy {
            name: name.to_string(),
            priority: 0,
            host_direct: None,
            docker: Some(DockerPolicy { host_ref: "host-1".to_string(), image: "crew:latest".to_string(), agent_adapters: vec![] }),
        },
        local: true,
        canonical: Ok(Some(PlacementTargetHost { reference: "host-1".to_string(), display_name: "kiwi".to_string() })),
        host: Ok(Some(HostReadiness {
            ready: true,
            generation: text("g1"),
            conditions: vec![],
            agent_adapters: Ok(vec![]),
            held_credentials: Ok(OrderedSet::from_strs(&vec!["github".to_string()])),
            expired: Ok(OrderedMap::new()),
        })),
    }
}

fn readings() -> CreateReadings {
    CreateReadings {
        generation: None,
        local_space: None,
        workflow: None,
        project_repositories: None,
        adopted: None,
        direct: None,
        grants: None,
        placement: PlacementReadings {
            adapters: None,
            agents: vec![],
            specs: None,
            policy: None,
            policies: None,
            local_host: text("host-1"),
            ambient_login: "codex".to_string(),
        },
        remote_space: None,
        final_generation: None,
        created: None,
    }
}

fn answer(rd: &mut CreateReadings, ask: CreateAsk, records: &mut Vec<CreateRecord>) {
    match ask {
        CreateAsk::Generation => rd.generation = Some(Ok(3)),
        CreateAsk::LocalSpace => rd.local_space = Some(Ok(())),
        CreateAsk::Workflow { .. } => {
            rd.workflow = Some(Ok(vec![WorkflowVessel {
                name: "work".to_string(),
                stance: "contained".to_string(),
                repository_refs: None,
                crew: vec![],
            }]));
        }
        CreateAsk::ProjectRepositories { .. } => rd.project_repositories = Some(Ok(vec![repository("repo-a")])),
        CreateAsk::Adopt => {
            rd.adopted = Some(Ok(AdoptedReading {
                repo_ref: "repo-a".to_string(),
                checkout_ref: "checkout-1".to_string(),
                repository_url: "https://repo-a".to_string(),
                git_ref: "feature".to_string(),
            }));
        }
        CreateAsk::Direct { .. } => {
            rd.direct = Some(Ok(DirectReading {
                repo_ref: "repo-d".to_string(),
                canonical_remote: text("https://direct"),
                default_branch: text("trunk"),
                workspace_slug: "direct".to_string(),
            }));
        }
        CreateAsk::Grants { repositories, .. } => {
            let grant = CredentialGrant { repositories, credentials: vec!["github".to_string()] };
            rd.grants = Some(GrantReading::Listed {
                grants: vec![vec![grant]],
                specs: OrderedSet::from_strs(&vec!["github".to_string()]),
            });
        }
        CreateAsk::Placement { ask } => match ask {
            PlacementAsk::Adapters { .. } => rd.placement.adapters = Some(Ok(vec![])),
            PlacementAsk::Agent { .. } => panic!("there is no agent"),
            PlacementAsk::Specs => rd.placement.specs = Some(Ok(OrderedMap::new())),
            PlacementAsk::Policy { name } => rd.placement.policy = Some(Ok(policy(&name))),
            PlacementAsk::Policies => rd.placement.policies = Some(Some(vec![policy("local")])),
        },
        CreateAsk::RemoteSpace { decision } => {
            assert!(decision.is_some());
            rd.remote_space = Some(Ok(()));
        }
        CreateAsk::FinalGeneration => rd.final_generation = Some(Ok(4)),
        CreateAsk::Create { record } => {
            records.push(record);
            rd.created = Some(Ok(()));
        }
    }
}

fn create(req: &CreateRequest, mut rd: CreateReadings) -> (Result<String, String>, Option<String>, Vec<CreateRecord>) {
    let mut records = vec![];
    for _ in 0..30 {
        match convoy_create_step(req, &rd) {
            CreateStep::Ask { ask } => answer(&mut rd, ask, &mut records),
            CreateStep::Finish { outcome, drop_checkout } => return (outcome, drop_checkout, records),
        }
    }
    panic!("the creation does not end");
}

#[test]
fn a_convoy_is_created_once_every_check_passes() {
    let (outcome, dropped, records) = create(&request(), readings());
    assert_eq!(outcome, Ok("governor@fleet".to_string()));
    assert_eq!(dropped, None);
    assert_eq!(records.len(), 1);
    assert_eq!(records[0].generation, 4);
    assert_eq!(records[0].repositories, vec![repository("repo-a")]);
    assert_eq!(records[0].placement.as_ref().map(|placement| placement.name.clone()), text("local"));
    assert_eq!(records[0].placement_decision.as_ref().map(|decision| decision.policy_name.clone()), text("local"));
    assert_eq!(records[0].inputs, vec![("depth".to_string(), "2".to_string())]);
    assert_eq!(records[0].dispatching_principal, text("operator"));
    assert_eq!(records[0].workflow.vessels[0].name, "work");
    assert_eq!(records[0].workflow.credentials[0].credential_refs, vec!["github".to_string()]);
    assert_eq!(records[0].workflow.credentials[0].credential_scopes[0].repositories, vec!["repo-a".to_string()]);
}

#[test]
fn a_creation_asks_for_the_policy_that_is_requested() {
    let mut req = request();
    req.placement_policy = text("remote");
    let (outcome, _, records) = create(&req, readings());
    assert!(outcome.is_ok());
    assert_eq!(records[0].placement.as_ref().map(|placement| placement.name.clone()), text("remote"));
    assert_eq!(records[0].placement_decision.as_ref().map(|decision| decision.policy_name.clone()), text("remote"));
}

#[test]
fn a_creation_stops_at_the_first_failed_check() {
    let mut rd = readings();
    rd.local_space = Some(Err("disk is full".to_string()));
    assert_eq!(create(&request(), rd).0, Err("disk is full".to_string()));
    let mut rd = readings();
    rd.workflow = Some(Err("not found".to_string()));
    assert_eq!(create(&request(), rd).0, Err("workflow template work: not found".to_string()));
    let mut bad = request();
    bad.role = "Bad".to_string();
    assert_eq!(
        create(&bad, readings()).0,
        Err("convoy name `Bad` must be a lowercase DNS label of at most 63 characters".to_string())
    );
    let mut both = request();
    both.repository_url = text("https://direct");
    assert_eq!(
        create(&both, readings()).0,
        Err("convoy repository selection is not allowed when a project is supplied".to_string())
    );
}

#[test]
fn an_adopted_checkout_is_carried_or_let_go() {
    let mut req = request();
    req.adopt = true;
    let (outcome, _, records) = create(&req, readings());
    assert_eq!(outcome, Ok("governor@fleet".to_string()));
    assert_eq!(records[0].adopted, Some(("repo-a".to_string(), "checkout-1".to_string())));
    let mut rd = readings();
    rd.final_generation = Some(Err("conflict".to_string()));
    let (outcome, dropped, _) = create(&req, rd);
    assert_eq!(outcome, Err("conflict".to_string()));
    assert_eq!(dropped, text("checkout-1"));
    let mut rd = readings();
    rd.project_repositories = Some(Ok(vec![repository("repo-x")]));
    assert_eq!(create(&req, rd).0, Err("adopted checkout repository repo-a is not part of project fleet".to_string()));
}

#[test]
fn a_convoy_without_a_project_works_on_one_repository() {
    let mut req = request();
    req.project_ref = None;
    req.repository_url = text("https://direct");
    let (outcome, _, records) = create(&req, readings());
    assert_eq!(outcome, Ok("governor".to_string()));
    assert_eq!(records[0].repositories[0].repo_ref, "repo-d");
    let reading = |remote: Option<&str>, branch: Option<&str>| DirectReading {
        repo_ref: "repo-d".to_string(),
        canonical_remote: remote.map(str::to_string),
        default_branch: branch.map(str::to_string),
        workspace_slug: "direct".to_string(),
    };
    assert_eq!(
        resolve_direct_repository("https://x", &reading(None, Some("main")), &None),
        Err("repository https://x did not resolve to a remote identity".to_string())
    );
    assert_eq!(
        resolve_direct_repository("https://x", &reading(Some("https://x"), None), &None),
        Err("repository repo-d has no resolved default branch".to_string())
    );
    assert_eq!(
        resolve_direct_repository("https://x", &reading(Some("https://x"), Some("main")), &None).expect("a repository").target_ref,
        "main"
    );
}

#[test]
fn labels_name_the_identity_of_a_convoy() {
    let names = ConvoyLabelNames { project: "project".to_string(), role: "role".to_string(), generation: "generation".to_string() };
    let labels = convoy_labels(&names, &text("fleet"), "governor", 3);
    assert_eq!(labels.get("project"), Some(&"fleet".to_string()));
    assert_eq!(labels.get("role"), Some(&"governor".to_string()));
    assert_eq!(labels.get("generation"), Some(&"3".to_string()));
    assert_eq!(convoy_labels(&names, &None, "governor", 3).get("project"), Some(&String::new()));
}

#[test]
fn snapshots_are_written_once() {
    assert_eq!(prepared_snapshot_name("issue", "abc"), "issue-snapshot-abc");
    assert_eq!(prepared_snapshot_step("issue", "x", &SnapshotReading::Absent), Ok(true));
    assert_eq!(prepared_snapshot_step("issue", "x", &SnapshotReading::Same), Ok(false));
    assert_eq!(
        prepared_snapshot_step("issue", "x", &SnapshotReading::Different),
        Err("prepared issue snapshot x already exists with different contents".to_string())
    );
    assert_eq!(
        prepared_snapshot_step("issue", "x", &SnapshotReading::Unreadable { error: "down".to_string() }),
        Err("down".to_string())
    );
}

#[test]
fn attaching_is_asked_for_configured_or_left_out() {
    assert!(should_auto_attach(ConvoyAutoAttach::Always, Some(false), true));
    assert!(!should_auto_attach(ConvoyAutoAttach::Never, Some(true), false));
    assert!(should_auto_attach(ConvoyAutoAttach::Default, Some(true), true));
    assert!(!should_auto_attach(ConvoyAutoAttach::Default, None, true));
    assert!(should_auto_attach(ConvoyAutoAttach::Default, None, false));
}

#[test]
fn a_start_goes_step_by_step() {
    let mut rd = StartReadings { local_space: None, admission: None, remote_space: None, generation: None, created: None, attached: None };
    let step = |rd: &StartReadings| run_convoy_start("flotilla", &None, true, rd);
    assert_eq!(step(&rd), StartStep::CheckLocalSpace);
    rd.local_space = Some(Ok(()));
    assert_eq!(step(&rd), StartStep::Prepare);
    rd.admission = Some(Ok(StartAdmission { role: "governor".to_string(), project_ref: text("fleet"), decision: None }));
    assert_eq!(step(&rd), StartStep::CheckRemoteSpace { decision: None });
    rd.remote_space = Some(Ok(()));
    assert_eq!(step(&rd), StartStep::Allocate { role: "governor".to_string(), project_ref: text("fleet") });
    rd.generation = Some(Ok(2));
    assert_eq!(step(&rd), StartStep::Create { generation: 2 });
    rd.created = Some(Ok(()));
    assert_eq!(step(&rd), StartStep::Attach { address: "governor@fleet".to_string() });
    assert_eq!(
        run_convoy_start("flotilla", &None, false, &rd),
        StartStep::Started { address: "governor@fleet".to_string(), attached: false }
    );
    rd.attached = Some(Ok(()));
    assert_eq!(step(&rd), StartStep::Started { address: "governor@fleet".to_string(), attached: true });
    assert_eq!(
        run_convoy_start("flotilla", &text("other"), true, &rd),
        StartStep::Fail { message: "namespace `other` is not served by this daemon (configured namespace: `flotilla`)".to_string() }
    );
}

#[test]
fn a_wait_ends_with_a_session_or_a_reason() {
    let wait = |event: WaitEvent| wait_for_convoy_attach("convoy-1", "governor@fleet", "not yet", event);
    let fails = |message: &str| WaitStep::Fail { message: message.to_string() };
    assert_eq!(first_wait_error(), "attach target is not available yet");
    assert_eq!(wait(WaitEvent::Tried { outcome: Ok(()) }), WaitStep::Attached);
    assert_eq!(wait(WaitEvent::Tried { outcome: Err("later".to_string()) }), WaitStep::GoOn { last_error: "later".to_string() });
    assert_eq!(wait(WaitEvent::Unrelated), WaitStep::GoOn { last_error: "not yet".to_string() });
    assert_eq!(
        wait(WaitEvent::Deadline),
        fails("convoy governor@fleet was created but no crew session became attachable: not yet")
    );
    assert_eq!(
        wait(WaitEvent::Deleted { record_name: "convoy-1".to_string() }),
        fails("convoy governor@fleet was deleted while waiting for a crew session")
    );
    assert_eq!(wait(WaitEvent::Deleted { record_name: "other".to_string() }), WaitStep::GoOn { last_error: "not yet".to_string() });
    assert_eq!(wait(WaitEvent::WatchEnded), fails("convoy governor@fleet status watch ended while waiting to attach"));
    assert_eq!(
        wait(WaitEvent::WatchFailed { error: "down".to_string() }),
        fails("watch convoy governor@fleet while waiting to attach: down")
    );
    let failed = StartingConvoy {
        record_name: "convoy-1".to_string(),
        role: "governor".to_string(),
        project_ref: text("fleet"),
        phase: Some(ConvoyPhase::Failed),
        message: text("broken"),
        work: vec![],
    };
    assert_eq!(wait(WaitEvent::Seen { convoy: failed }), fails("convoy governor@fleet failed while starting: broken"));
}

#[test]
fn default_workflows_are_seeded_once_each() {
    let mut outcomes = Vec::new();
    let mut seeded = Vec::new();
    while let Some(name) = ensure_default_workflows(&outcomes).expect("no failure") {
        seeded.push(name);
        outcomes.push(if seeded.len() == 2 { SeedOutcome::Present } else { SeedOutcome::Created });
    }
    assert_eq!(seeded, vec!["single-agent-contained", "single-agent-shepherd", "single-agent-trusted", "implement-review"]);
    assert_eq!(
        ensure_default_workflows(&vec![SeedOutcome::Created, SeedOutcome::Failed { error: "disk full".to_string() }]),
        Err("disk full".to_string())
    );
}
