use flotilla_core::admission_workflow::{GrantReading, WorkflowReadings};
use flotilla_core::ordered::{OrderedMap, OrderedSet};
use flotilla_core::placement::{DockerPolicy, HostReadiness, PlacementPolicy, PolicyReading};
use flotilla_core::placing::{PlacementAsk, PlacementReadings};
use flotilla_core::workflow::{AgentOverride, AgentRequirement, AgentSelector, CredentialGrant, CrewSource, WorkflowVessel};
use flotilla_core::admission::{
    check_issue_snapshot, convoy_start_failure, issue_snapshot_is_fresh, normalize_convoy_start_intent, ConvoyStartIntent, ConvoyStartKey,
    ConvoyStartSubject, IssueSelector, PendingStarts, StartingConvoy, StartingWork,
};
use flotilla_core::change_requests::ResolvedRequest;
use flotilla_core::model::{ConvoyPhase, PlacementDecision, PlacementTargetHost};
use flotilla_core::naming::{NamedIssue, ReadFailure, ViewAddressReading};
use flotilla_core::preparation::{
    choose_workflow, convoy_names_context, prepare_convoy_admission_with_preferences, AdmissionAsk, AdmissionReadings, AdmissionStep,
    ConvoyAdmission, ConvoyNames, ProjectReading,
};
use flotilla_core::projects::ConvoyRepository;
use flotilla_core::time::Timestamp;
use std::sync::Arc;

fn text(value: &str) -> Option<String> {
    Some(value.to_string())
}

fn noon() -> Timestamp {
    Timestamp::at(1786795200, 0).expect("an instant")
}

fn intent() -> ConvoyStartIntent {
    ConvoyStartIntent {
        namespace: None,
        project_ref: "fleet".to_string(),
        name: None,
        branch: None,
        workflow_ref: None,
        inputs: vec![],
        instruction: None,
        placement_policy: None,
        change_request: None,
        issues: vec![],
        agent_overrides: vec![],
    }
}

fn by_id(id: &str) -> IssueSelector {
    IssueSelector::Id { id: id.to_string() }
}

fn repository(repo_ref: &str) -> ConvoyRepository {
    ConvoyRepository {
        url: format!("https://{repo_ref}"),
        repo_ref: repo_ref.to_string(),
        source_ref: "main".to_string(),
        target_ref: "main".to_string(),
        workspace_slug: repo_ref.to_string(),
        subpaths: vec![],
    }
}

fn decision(policy: &str) -> Arc<PlacementDecision> {
    Arc::new(PlacementDecision {
        policy_name: policy.to_string(),
        target_host: PlacementTargetHost { reference: "host-1".to_string(), display_name: "kiwi".to_string() },
        refused_candidates: vec![],
        viable_not_selected: vec![],
    })
}

fn policy(name: &str, contained: bool) -> PolicyReading {
    PolicyReading {
        policy: PlacementPolicy {
            name: name.to_string(),
            priority: 0,
            host_direct: if contained { None } else { text("host-1") },
            docker: if contained {
                Some(DockerPolicy { host_ref: "host-1".to_string(), image: "crew:latest".to_string(), agent_adapters: vec!["codex".to_string()] })
            } else {
                None
            },
        },
        local: true,
        canonical: Ok(Some(PlacementTargetHost { reference: "host-1".to_string(), display_name: "kiwi".to_string() })),
        host: Ok(Some(HostReadiness {
            ready: true,
            generation: text("g1"),
            conditions: vec![],
            agent_adapters: Ok(vec!["codex".to_string()]),
            held_credentials: Ok(OrderedSet::from_strs(&vec!["github".to_string()])),
            expired: Ok(OrderedMap::new()),
        })),
    }
}

fn readings() -> AdmissionReadings {
    AdmissionReadings {
        project: None,
        repositories: None,
        change_request: None,
        issues: vec![],
        workflow: WorkflowReadings { template: None, forks: None, grants: None },
        names: None,
        placement: PlacementReadings {
            adapters: None,
            agents: vec![],
            specs: None,
            policy: None,
            policies: None,
            local_host: text("host-1"),
            ambient_login: "codex".to_string(),
        },
    }
}

struct World {
    stance: &'static str,
    /// Whether the one policy there is places in a container.
    contained: Option<bool>,
    names: Option<ConvoyNames>,
}

fn agent(adapter: Option<&str>) -> AgentSelector {
    AgentSelector { capability: "code".to_string(), adapter: adapter.map(str::to_string), model: None }
}

fn answer(readings: &mut AdmissionReadings, ask: AdmissionAsk, world: &World) {
    match ask {
        AdmissionAsk::Project { .. } => {
            readings.project = Some(Ok(ProjectReading { display_name: "Fleet".to_string(), default_workflow_ref: "work".to_string() }));
        }
        AdmissionAsk::Repositories { .. } => readings.repositories = Some(Ok(vec![repository("repo-a"), repository("repo-b")])),
        AdmissionAsk::ChangeRequest { id, .. } => {
            readings.change_request = Some(Ok(ResolvedRequest {
                id,
                repository_ref: "repo-b".to_string(),
                title: "Adopt me".to_string(),
                branch: "feature/adopt".to_string(),
                base_ref: "main".to_string(),
            }));
        }
        AdmissionAsk::Issue { position } => {
            readings.issues.push(Ok(NamedIssue { id: format!("{}", position + 1), title: "An Issue".to_string(), body: None }));
        }
        AdmissionAsk::Template { .. } => {
            readings.workflow.template = Some(Ok(vec![WorkflowVessel {
                name: "work".to_string(),
                stance: world.stance.to_string(),
                repository_refs: None,
                crew: vec![CrewSource::Agent { selector: agent(None) }],
            }]));
        }
        AdmissionAsk::Forks { .. } => readings.workflow.forks = Some(vec![]),
        AdmissionAsk::Grants { .. } => {
            let grant = CredentialGrant { repositories: vec![], credentials: vec!["github".to_string()] };
            readings.workflow.grants = Some(GrantReading::Listed {
                grants: vec![vec![grant]],
                specs: OrderedSet::from_strs(&vec!["github".to_string()]),
            });
        }
        AdmissionAsk::Names { .. } => {
            readings.names = Some(world.names.as_ref().map(|n| ConvoyNames { name: n.name.clone(), branch: n.branch.clone() }));
        }
        AdmissionAsk::Placement { ask } => match ask {
            PlacementAsk::Adapters { selectors } => {
                let adapters = selectors.into_iter().map(|selector| selector.adapter.unwrap_or("codex".to_string())).collect();
                readings.placement.adapters = Some(Ok(adapters));
            }
            PlacementAsk::Agent { selector } => {
                readings.placement.agents.push(Ok(AgentRequirement {
                    adapter: selector.adapter.unwrap_or("codex".to_string()),
                    delivery_slot: None,
                    ambient_scope: None,
                }));
            }
            PlacementAsk::Specs => readings.placement.specs = Some(Ok(OrderedMap::new())),
            PlacementAsk::Policy { name } => {
                readings.placement.policy = Some(world.contained.map(|contained| policy(&name, contained)).ok_or("not found".to_string()));
            }
            PlacementAsk::Policies => {
                readings.placement.policies = Some(world.contained.map(|contained| vec![policy("local", contained)]));
            }
        },
    }
}

fn prepare(intent: &ConvoyStartIntent, selected: Option<&[&str]>, world: &World) -> Result<ConvoyAdmission, String> {
    let selected = selected.map(|keys| keys.iter().map(|key| key.to_string()).collect());
    let mut readings = readings();
    for _ in 0..20 {
        match prepare_convoy_admission_with_preferences("flotilla", intent, &text("operator"), &selected, &None, &readings) {
            AdmissionStep::Ask { ask } => answer(&mut readings, ask, world),
            AdmissionStep::Refuse { message } => return Err(message),
            AdmissionStep::Admitted { admission } => return Ok(admission),
        }
    }
    panic!("the admission does not end");
}

fn plain() -> World {
    World { stance: "contained", contained: Some(true), names: None }
}

#[test]
fn a_start_is_identified_by_what_it_is_about() {
    let mut about_request = intent();
    about_request.change_request = text("7");
    about_request.issues = vec![by_id("1")];
    assert_eq!(
        ConvoyStartKey::new("flotilla".to_string(), &about_request).subject,
        ConvoyStartSubject::ChangeRequest { id: "7".to_string() }
    );
    let mut about_issues = intent();
    about_issues.issues = vec![by_id("1")];
    about_issues.name = text("x");
    assert!(matches!(ConvoyStartKey::new("flotilla".to_string(), &about_issues).subject, ConvoyStartSubject::Issues { .. }));
    let mut named = intent();
    named.name = text("x");
    assert_eq!(
        ConvoyStartKey::new("flotilla".to_string(), &named).subject,
        ConvoyStartSubject::Name { name: "x".to_string() }
    );
    assert!(matches!(ConvoyStartKey::new("flotilla".to_string(), &intent()).subject, ConvoyStartSubject::Anonymous { .. }));
}

#[test]
fn one_start_runs_at_a_time() {
    let mut pending = PendingStarts::new();
    let key = || ConvoyStartKey::new("flotilla".to_string(), &intent());
    assert_eq!(pending.begin(key()), Ok(()));
    assert_eq!(pending.begin(key()), Err("convoy start for project fleet is already in progress".to_string()));
    let mut other = intent();
    other.instruction = text("something else");
    assert_eq!(pending.begin(ConvoyStartKey::new("flotilla".to_string(), &other)), Ok(()));
    pending.end(&key());
    assert_eq!(pending.begin(key()), Ok(()));
}

#[test]
fn an_intent_is_put_into_its_namespace() {
    let reading = ViewAddressReading::Invalid { error: "unused".to_string() };
    let mut asked = intent();
    asked.project_ref = "acme/fleet".to_string();
    let (namespace, normalized) = normalize_convoy_start_intent("flotilla", asked, "flotilla://", &reading).expect("an intent");
    assert_eq!(namespace, "acme");
    assert_eq!(normalized.namespace, text("acme"));
    assert_eq!(normalized.project_ref, "fleet");
    let mut empty = intent();
    empty.project_ref = "  ".to_string();
    assert_eq!(
        normalize_convoy_start_intent("flotilla", empty, "flotilla://", &reading).err(),
        text("project cannot be empty")
    );
}

#[test]
fn an_issue_snapshot_is_fresh_for_five_minutes() {
    let before = |secs: i64| Timestamp::at(1786795200 - secs, 0);
    assert!(issue_snapshot_is_fresh(&before(0), &noon()));
    assert!(issue_snapshot_is_fresh(&before(300), &noon()));
    assert!(!issue_snapshot_is_fresh(&before(301), &noon()));
    assert!(!issue_snapshot_is_fresh(&before(-1), &noon()));
    assert!(!issue_snapshot_is_fresh(&None, &noon()));
    assert_eq!(check_issue_snapshot("7", &None, &noon()), Err("issue 7 snapshot is too stale to admit".to_string()));
    assert_eq!(check_issue_snapshot("7", &before(10), &noon()), Ok(()));
}

#[test]
fn a_failed_start_says_what_failed() {
    let convoy = |phase: Option<ConvoyPhase>, message: Option<&str>, work: Vec<StartingWork>| StartingConvoy {
        record_name: "convoy-1".to_string(),
        role: "governor".to_string(),
        project_ref: text("fleet"),
        phase,
        message: message.map(str::to_string),
        work,
    };
    let work = |failed: bool, message: Option<&str>| StartingWork { name: "work".to_string(), failed, message: message.map(str::to_string) };
    assert_eq!(convoy_start_failure(&convoy(None, None, vec![work(true, None)])), None);
    assert_eq!(convoy_start_failure(&convoy(Some(ConvoyPhase::Active), None, vec![work(false, None)])), None);
    assert_eq!(
        convoy_start_failure(&convoy(Some(ConvoyPhase::Active), None, vec![work(true, Some("no disk"))])),
        text("convoy governor@fleet failed while starting work work: no disk")
    );
    assert_eq!(
        convoy_start_failure(&convoy(Some(ConvoyPhase::Active), None, vec![work(true, Some(" "))])),
        text("convoy governor@fleet failed while starting work work: work failed without a message")
    );
    assert_eq!(
        convoy_start_failure(&convoy(Some(ConvoyPhase::Failed), Some("broken"), vec![])),
        text("convoy governor@fleet failed while starting: broken")
    );
    assert_eq!(convoy_start_failure(&convoy(Some(ConvoyPhase::Failed), None, vec![])), text("convoy governor@fleet failed while starting"));
    assert_eq!(
        convoy_start_failure(&convoy(Some(ConvoyPhase::Cancelled), None, vec![])),
        text("convoy governor@fleet was cancelled while starting")
    );
}

#[test]
fn the_workflow_is_the_asked_or_the_default_one() {
    assert_eq!(choose_workflow(&intent(), "work"), Ok("work".to_string()));
    let mut asked = intent();
    asked.workflow_ref = text(" own ");
    assert_eq!(choose_workflow(&asked, "work"), Ok("own".to_string()));
    asked.workflow_ref = text(" ");
    assert_eq!(choose_workflow(&asked, "work"), Err("workflow cannot be empty".to_string()));
    let mut adopting = intent();
    adopting.change_request = text("7");
    assert_eq!(choose_workflow(&adopting, "work"), Ok("single-agent-shepherd".to_string()));
}

#[test]
fn a_name_is_made_up_from_project_issues_and_instruction() {
    let issue = NamedIssue { id: "7".to_string(), title: "Fix".to_string(), body: text("Body") };
    assert_eq!(convoy_names_context("Fleet", &vec![issue], &text("Go")), "Project: Fleet\nIssue 7: Fix\nBody\nInstruction: Go");
    assert_eq!(convoy_names_context("Fleet", &vec![], &None), "Project: Fleet");
}

#[test]
fn an_admission_names_its_convoy() {
    let mut asked = intent();
    asked.issues = vec![by_id("1")];
    let admission = prepare(&asked, None, &plain()).expect("an admission");
    assert_eq!(admission.role, "an-issue-1");
    assert_eq!(admission.branch, "an-issue-1");
    assert_eq!(admission.workflow_ref, "work");
    assert_eq!(admission.issues, vec![0]);
    assert_eq!(admission.repositories.len(), 2);
    let named = World { names: Some(ConvoyNames { name: "Nice Name".to_string(), branch: "feat/nice".to_string() }), ..plain() };
    let admission = prepare(&asked, None, &named).expect("an admission");
    assert_eq!(admission.role, "nice-name");
    assert_eq!(admission.branch, "feat/nice");
}

#[test]
fn an_adopted_change_request_brings_its_branch() {
    let mut asked = intent();
    asked.change_request = text("7");
    let admission = prepare(&asked, None, &plain()).expect("an admission");
    assert_eq!(admission.role, "adopt-me-7");
    assert_eq!(admission.branch, "feature/adopt");
    assert_eq!(admission.workflow_ref, "single-agent-shepherd");
    asked.branch = text("mine");
    assert_eq!(
        prepare(&asked, None, &plain()).err(),
        text("change request adoption derives the branch from --pr; do not also provide a branch")
    );
    asked.branch = None;
    asked.issues = vec![by_id("1")];
    assert_eq!(prepare(&asked, None, &plain()).err(), text("change request adoption is PR-first; do not also provide issues"));
}

#[test]
fn an_admission_refuses_bad_names() {
    let mut asked = intent();
    asked.name = text("Bad Name");
    asked.branch = text("main");
    assert_eq!(
        prepare(&asked, None, &plain()).err(),
        text("convoy name `Bad Name` must be a lowercase DNS label of at most 63 characters")
    );
    asked.name = text("good");
    asked.branch = text("a..b");
    assert_eq!(prepare(&asked, None, &plain()).err(), text("branch `a..b` is not a valid git branch name"));
}

#[test]
fn trusted_work_must_be_acknowledged() {
    let world = World { stance: "trusted", contained: Some(false), names: None };
    let mut asked = intent();
    asked.name = text("good");
    asked.branch = text("main");
    assert_eq!(
        prepare(&asked, None, &world).err(),
        text(
            "implicit workflow `work` resolves to trusted host-direct placement `local` on `kiwi`; the crew will inherit ambient human \
             credentials and may act under the operator's forge identity. Repeat with `--workflow work` to acknowledge this identity \
             implication"
        )
    );
    asked.workflow_ref = text("work");
    let admitted = prepare(&asked, None, &world).expect("an acknowledged admission");
    assert_eq!(admitted.dispatching_principal, text("operator"));
    assert_eq!(admitted.placement_policy, text("local"));
    assert_eq!(admitted.placement_decision, Some(decision("local")));
}

#[test]
fn a_standing_convoy_selects_project_repositories() {
    let mut asked = intent();
    asked.name = text("good");
    asked.branch = text("main");
    let admission = prepare(&asked, Some(&["repo-b"]), &plain()).expect("an admission");
    assert_eq!(admission.repositories, vec![repository("repo-b")]);
    assert_eq!(
        prepare(&asked, Some(&["repo-z"]), &plain()).err(),
        text("standing convoy selects repository repo-z outside project fleet")
    );
    assert_eq!(prepare(&asked, Some(&[]), &plain()).err(), text("standing convoy must select at least one project repository"));
}

#[test]
fn a_preferred_stance_reaches_the_workflow() {
    let mut asked = intent();
    asked.name = text("good");
    asked.branch = text("main");
    let mut rd = readings();
    let world = World { stance: "trusted", contained: Some(true), names: None };
    for _ in 0..20 {
        match prepare_convoy_admission_with_preferences("flotilla", &asked, &None, &None, &text("contained"), &rd) {
            AdmissionStep::Ask { ask: AdmissionAsk::Grants { project_ref, vessels, repositories } } => {
                assert_eq!(project_ref, "fleet");
                assert_eq!(vessels[0].stance, "contained");
                assert_eq!(repositories, vec!["repo-a".to_string(), "repo-b".to_string()]);
                return;
            }
            AdmissionStep::Ask { ask } => answer(&mut rd, ask, &world),
            other => panic!("{other:?}"),
        }
    }
    panic!("the grants are never asked for");
}

#[test]
fn the_workflow_is_settled_for_the_selected_repositories() {
    let mut asked = intent();
    asked.name = text("good");
    asked.branch = text("main");
    let selected = Some(vec!["repo-b".to_string()]);
    let mut rd = readings();
    let mut asks = vec![];
    for _ in 0..20 {
        match prepare_convoy_admission_with_preferences("flotilla", &asked, &None, &selected, &None, &rd) {
            AdmissionStep::Ask { ask } => {
                match &ask {
                    AdmissionAsk::Forks { repositories } | AdmissionAsk::Grants { repositories, .. } => asks.push(repositories.clone()),
                    _ => {}
                }
                answer(&mut rd, ask, &plain());
            }
            AdmissionStep::Admitted { admission } => {
                assert_eq!(asks, vec![vec!["repo-b".to_string()], vec!["repo-b".to_string()]]);
                assert_eq!(admission.workflow.credentials[0].credential_scopes[0].repositories, vec!["repo-b".to_string()]);
                return;
            }
            other => panic!("{other:?}"),
        }
    }
    panic!("the admission does not end");
}

#[test]
fn choices_made_at_dispatch_reach_the_placement_and_the_snapshot() {
    let mut asked = intent();
    asked.name = text("good");
    asked.branch = text("main");
    asked.agent_overrides = vec![AgentOverride { capability: "code".to_string(), adapter: "other".to_string(), model: None }];
    assert_eq!(
        prepare(&asked, None, &plain()).err(),
        text(
            "no placement policy satisfies adapter `other`; candidates:\n\
             - `local`: workflow requires agent adapter `other`, which is not available in placement `local` (image `crew:latest`)"
        )
    );
    asked.agent_overrides[0].adapter = "codex".to_string();
    let admission = prepare(&asked, None, &plain()).expect("an admission");
    assert_eq!(admission.workflow.vessels[0].crew, vec![CrewSource::Agent { selector: agent(Some("codex")) }]);
    assert_eq!(admission.workflow.credentials[0].credential_refs, vec!["github".to_string()]);
    assert_eq!(admission.placement.map(|placement| placement.name), text("local"));
}

#[test]
fn contained_work_is_admitted_into_a_container_only() {
    let mut asked = intent();
    asked.name = text("good");
    asked.branch = text("main");
    asked.placement_policy = text("direct");
    let outside = World { stance: "contained", contained: Some(false), names: None };
    assert_eq!(
        prepare(&asked, None, &outside).err(),
        text("contained workflow requires a docker placement policy, but direct is not contained")
    );
    let none = World { stance: "contained", contained: None, names: None };
    assert_eq!(prepare(&asked, None, &none).err(), text("placement policy direct: not found"));
    asked.placement_policy = text(" ");
    assert_eq!(prepare(&asked, None, &none).err(), text("placement policy cannot be empty"));
    asked.placement_policy = None;
    assert!(prepare(&asked, None, &plain()).is_ok());
}

#[test]
fn a_project_that_is_gone_admits_nothing() {
    let mut rd = readings();
    rd.project = Some(Err(ReadFailure::NotFound { name: "fleet".to_string() }));
    match prepare_convoy_admission_with_preferences("flotilla", &intent(), &None, &None, &None, &rd) {
        AdmissionStep::Refuse { message } => {
            assert_eq!(message, "project flotilla/fleet is not ready: resource not found: fleet (tried flotilla/fleet)");
        }
        other => panic!("{other:?}"),
    }
}

#[test]
fn an_admission_carries_what_the_crew_is_given() {
    let mut asked = intent();
    asked.change_request = text("7");
    asked.instruction = text("Mind the tests");
    asked.inputs = vec![("depth".to_string(), "2".to_string())];
    let admission = prepare(&asked, None, &plain()).expect("an admission");
    assert_eq!(admission.instruction, text("Mind the tests"));
    assert_eq!(admission.inputs, vec![("depth".to_string(), "2".to_string())]);
    assert_eq!(admission.change_request.map(|request| request.title), text("Adopt me"));
    assert_eq!(admission.branch, "feature/adopt");
}
