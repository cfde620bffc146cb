use flotilla_core::admission_workflow::{grant_workflow, resolve_convoy_admission_workflow, GrantReading, WorkflowReadings, WorkflowStep};
use flotilla_core::model::PlacementTargetHost;
use flotilla_core::ordered::{OrderedMap, OrderedSet};
use flotilla_core::placement::{
    canonical_placement_host_ref_from_sources, check_remote_placement_free_space_floor, placement_target_host, remote_placement_host,
    validate_workflow_agent_adapters, validate_workflow_credentials, CapacityCheck, CapacitySource, DockerPolicy, HostReadiness,
    HostRecord, PlacementPolicy, PolicyReading,
};
use flotilla_core::placing::{
    convoy_start_placement_host, placement_needs, resolve_and_validate_convoy_placement, PlacementAsk, PlacementReadings, PlacementStep,
};
use flotilla_core::time::Timestamp;
use flotilla_core::workflow::{
    AgentRequirement, AgentSelector, CredentialGrant, CrewSource, EffectiveWorkflow, VesselCredentials, WorkflowVessel,
};

fn texts(items: &[&str]) -> Vec<String> {
    items.iter().map(|item| item.to_string()).collect()
}

fn text(value: &str) -> Option<String> {
    Some(value.to_string())
}

fn selector(adapter: Option<&str>) -> AgentSelector {
    AgentSelector { capability: "code".to_string(), adapter: adapter.map(str::to_string), model: None }
}

fn vessel(stance: &str, crew: Vec<CrewSource>) -> WorkflowVessel {
    WorkflowVessel { name: "work".to_string(), stance: stance.to_string(), repository_refs: None, crew }
}

fn coder() -> Vec<CrewSource> {
    vec![CrewSource::Agent { selector: selector(Some("codex")) }]
}

fn holding(vessel: WorkflowVessel, credentials: &[&str]) -> EffectiveWorkflow {
    EffectiveWorkflow {
        vessels: vec![vessel],
        credentials: vec![VesselCredentials { credential_refs: texts(credentials), credential_scopes: vec![] }],
    }
}

fn docker(name: &str, host: &str, held: &[&str]) -> PolicyReading {
    PolicyReading {
        policy: PlacementPolicy {
            name: name.to_string(),
            priority: 0,
            host_direct: None,
            docker: Some(DockerPolicy {
                host_ref: host.to_string(),
                image: "crew:latest".to_string(),
                agent_adapters: texts(&["codex"]),
            }),
        },
        local: true,
        canonical: Ok(Some(PlacementTargetHost { reference: host.to_string(), display_name: host.to_string() })),
        host: Ok(Some(HostReadiness {
            ready: true,
            generation: text("g1"),
            conditions: vec![],
            agent_adapters: Ok(vec![]),
            held_credentials: Ok(OrderedSet::from_strs(&texts(held))),
            expired: Ok(OrderedMap::new()),
        })),
    }
}

fn expired(policy: &mut PolicyReading, scope: &str, at: &str) {
    if let Ok(Some(status)) = &mut policy.host {
        let mut map = OrderedMap::new();
        map.insert(scope.to_string(), Timestamp::from_rfc3339(at).expect("an instant"));
        status.expired = Ok(map);
    }
}

fn slots() -> Result<OrderedMap<String>, String> {
    let mut slots = OrderedMap::new();
    slots.insert("codex-max".to_string(), "codex-oauth".to_string());
    Ok(slots)
}

fn agent_needs(delivery_slot: Option<&str>, ambient_scope: Option<&str>) -> Vec<Result<AgentRequirement, String>> {
    vec![Ok(AgentRequirement {
        adapter: "codex".to_string(),
        delivery_slot: delivery_slot.map(str::to_string),
        ambient_scope: ambient_scope.map(str::to_string),
    })]
}

fn validate(
    workflow: &EffectiveWorkflow,
    agents: &Vec<Result<AgentRequirement, String>>,
    placement: Option<&PolicyReading>,
) -> Result<(), String> {
    let adapters = Ok(vec![]);
    let specs = slots();
    let needs = placement_needs(workflow, &adapters, agents, &specs, "codex");
    validate_workflow_credentials(&needs.vessels, needs.specs, needs.ambient_login, placement)
}

fn granted(vessel: WorkflowVessel, grants: &[&str]) -> EffectiveWorkflow {
    let matching = if grants.is_empty() {
        vec![]
    } else {
        vec![vec![CredentialGrant { repositories: vec![], credentials: texts(grants) }]]
    };
    let listed = Some(GrantReading::Listed { grants: matching, specs: OrderedSet::from_strs(&texts(&["codex-max"])) });
    match grant_workflow(vec![vessel], &vec![], &listed) {
        WorkflowStep::Resolved { workflow } => workflow,
        other => panic!("{other:?}"),
    }
}

#[test]
fn contained_agents_require_and_accept_a_project_selected_grant() {
    let agents = agent_needs(Some("codex-oauth"), None);
    let without = granted(vessel("contained", coder()), &[]);
    assert_eq!(
        validate(&without, &agents, None),
        Err("contained agent adapter `codex` requires credential `codex-max`, but no matching CredentialGrant selected it".to_string())
    );
    let with = granted(vessel("contained", coder()), &["codex-max"]);
    assert_eq!(with.credentials[0].credential_refs, texts(&["codex-max"]));
    assert_eq!(validate(&with, &agents, Some(&docker("docker-codex", "host-a", &["codex-max"]))), Ok(()));
}

#[test]
fn trusted_agents_require_and_accept_a_project_selected_grant() {
    let agents = agent_needs(Some("codex-oauth"), Some("ambient-login"));
    let without = granted(vessel("trusted", coder()), &[]);
    assert_eq!(
        validate(&without, &agents, None),
        Err("trusted agent adapter `codex` requires credential `codex-max`, but no matching CredentialGrant selected it".to_string())
    );
    let with = granted(vessel("trusted", coder()), &["codex-max"]);
    let mut placement = docker("host-codex", "host-a", &["codex-max"]);
    expired(&mut placement, "ambient-login", "2026-07-30T00:00:00Z");
    assert_eq!(validate(&with, &agents, Some(&placement)), Ok(()));
}

#[test]
fn ambient_only_adapter_is_refused_when_the_host_login_expired() {
    let mut placement = docker("ambient-host", "host-a", &[]);
    expired(&mut placement, "ambient-login", "2020-02-01T00:00:00Z");
    let workflow = holding(vessel("trusted", coder()), &[]);
    assert_eq!(
        validate(&workflow, &agent_needs(None, Some("ambient-login")), Some(&placement)),
        Err("vessel `work` depends on the ambient codex login on host `host-a`, which expired on 2020-02-01 \u{2014} log in again on \
             that host or grant a delivered codex credential"
            .to_string())
    );
}

#[test]
fn dispatch_against_an_expired_credential_is_refused_with_the_credential_and_host_named() {
    let workflow = holding(vessel("contained", coder()), &["codex-max"]);
    let agents = agent_needs(Some("codex-oauth"), None);
    let mut placement = docker("docker-codex", "host-a", &["codex-max"]);
    assert_eq!(validate(&workflow, &agents, Some(&placement)), Ok(()));
    expired(&mut placement, "codex-max", "2020-02-01T00:00:00Z");
    assert_eq!(
        validate(&workflow, &agents, Some(&placement)),
        Err("credential `codex-max` expired on host `host-a` on 2020-02-01 \u{2014} refresh its material before dispatching".to_string())
    );
}

#[test]
fn remote_placement_uses_replicated_host_capabilities() {
    let mut placement = docker("feta-docker", "feta-host", &["codex-max"]);
    placement.canonical = Ok(Some(PlacementTargetHost { reference: "feta-host".to_string(), display_name: "feta".to_string() }));
    if let Ok(Some(status)) = &mut placement.host {
        status.generation = text("fresh-feta-generation");
    }
    let none = vec![];
    let workflow = holding(vessel("contained", vec![]), &["codex-max"]);
    assert_eq!(validate(&workflow, &none, Some(&placement)), Ok(()));
    let wanting = holding(vessel("contained", vec![]), &["codex-max", "github-crew-pr"]);
    assert_eq!(
        validate(&wanting, &none, Some(&placement)),
        Err("workflow requires credential `github-crew-pr`, which placement `feta-docker` host `feta` generation \
             `fresh-feta-generation` does not hold"
            .to_string())
    );
}

#[test]
fn self_targeted_admission_resolves_display_name_policy_to_live_local_host() {
    let hosts = vec![HostRecord { name: "local-id".to_string(), display_name: "local-host".to_string() }];
    let canonical = canonical_placement_host_ref_from_sources(&hosts, &Ok(text("local-id")));
    let policy = PolicyReading {
        policy: PlacementPolicy { name: "self-targeted".to_string(), priority: 0, host_direct: text("local-host"), docker: None },
        local: true,
        canonical,
        host: Ok(None),
    };
    let target = placement_target_host(&policy).expect("resolve display-name host reference");
    assert_eq!(target.reference, "local-id");
    assert_eq!(remote_placement_host(Some("self-targeted"), &Ok(policy), &text("local-id")), Ok(None));
    let gib: u64 = 1024 * 1024 * 1024;
    let sources = vec![CapacitySource { name: "local-id".to_string(), local: true, floor_bytes: Some(20 * gib), free_bytes: Some(100 * gib) }];
    assert_eq!(
        check_remote_placement_free_space_floor(Some(&target), &sources, true, &text("local-id")),
        CapacityCheck::Measured { host: "local-host".to_string(), free_bytes: 100 * gib, floor_bytes: 20 * gib }
    );
}

#[test]
fn default_remote_placement_routes_before_admission() {
    let template = vec![vessel("trusted", coder())];
    let grants = vec![vec![CredentialGrant { repositories: vec![], credentials: texts(&["codex-max"]) }]];
    let rd = WorkflowReadings {
        template: Some(Ok(template)),
        forks: Some(vec![]),
        grants: Some(GrantReading::Listed { grants, specs: OrderedSet::from_strs(&texts(&["codex-max"])) }),
    };
    let workflow = match resolve_convoy_admission_workflow("govern", &None, &vec![], &vec![], &rd) {
        WorkflowStep::Resolved { workflow } => workflow,
        other => panic!("{other:?}"),
    };
    assert_eq!(workflow.credentials[0].credential_refs, texts(&["codex-max"]));
    let mut placement = docker("docker-udder-id", "udder-id", &["codex-max"]);
    placement.local = false;
    assert_eq!(validate_workflow_agent_adapters(&Ok(texts(&["codex"])), Some(&placement)), Ok(()));
    let agents = agent_needs(Some("codex-oauth"), None);
    assert_eq!(validate(&workflow, &agents, Some(&placement)), Ok(()));
    let readings = PlacementReadings {
        adapters: Some(Ok(texts(&["codex"]))),
        agents,
        specs: Some(slots()),
        policy: None,
        policies: Some(Some(vec![placement])),
        local_host: text("local-host"),
        ambient_login: "codex".to_string(),
    };
    match resolve_and_validate_convoy_placement(&workflow, &None, &readings) {
        PlacementStep::Placed { placement } => {
            assert_eq!(convoy_start_placement_host(&placement, &readings.local_host), text("udder-id"));
            assert_eq!(convoy_start_placement_host(&placement, &text("udder-id")), None);
            assert_eq!(placement.map(|placement| placement.decision.policy_name), text("docker-udder-id"));
        }
        other => panic!("{other:?}"),
    }
}

#[test]
fn a_placement_asks_for_one_thing_after_the_other() {
    let workflow = holding(vessel("contained", coder()), &[]);
    let mut rd = PlacementReadings {
        adapters: None,
        agents: vec![],
        specs: None,
        policy: None,
        policies: None,
        local_host: None,
        ambient_login: "codex".to_string(),
    };
    let step = |rd: &PlacementReadings, policy: &Option<String>| resolve_and_validate_convoy_placement(&workflow, policy, rd);
    let asks = |ask: PlacementAsk| PlacementStep::Ask { ask };
    assert_eq!(step(&rd, &None), asks(PlacementAsk::Adapters { selectors: vec![selector(Some("codex"))] }));
    rd.adapters = Some(Ok(texts(&["codex"])));
    assert_eq!(step(&rd, &None), asks(PlacementAsk::Agent { selector: selector(Some("codex")) }));
    rd.agents = agent_needs(None, None);
    assert_eq!(step(&rd, &None), asks(PlacementAsk::Specs));
    rd.specs = Some(slots());
    assert_eq!(step(&rd, &None), asks(PlacementAsk::Policies));
    assert_eq!(step(&rd, &text(" box ")), asks(PlacementAsk::Policy { name: "box".to_string() }));
    rd.policies = Some(None);
    let refusal = |message: &str| PlacementStep::Refuse { message: message.to_string() };
    assert_eq!(step(&rd, &None), refusal("contained workflow requires an available docker placement policy"));
    rd.policy = Some(Err("gone".to_string()));
    assert_eq!(step(&rd, &text("box")), refusal("placement policy box: gone"));
    let mut lost = docker("box", "host-a", &[]);
    lost.canonical = Ok(None);
    rd.policy = Some(Ok(lost));
    assert_eq!(step(&rd, &text("box")), refusal("placement `box` references unknown host `host-a`"));
    rd.policy = Some(Ok(docker("box", "host-a", &[])));
    assert!(matches!(step(&rd, &text("box")), PlacementStep::Placed { placement: Some(p) } if p.decision.target_host.reference == "host-a"));
}

#[test]
fn needs_are_told_apart_by_vessel() {
    let workflow = EffectiveWorkflow {
        vessels: vec![vessel("trusted", vec![CrewSource::Tool]), vessel("contained", coder())],
        credentials: vec![
            VesselCredentials { credential_refs: texts(&["a"]), credential_scopes: vec![] },
            VesselCredentials { credential_refs: texts(&["b"]), credential_scopes: vec![] },
        ],
    };
    let adapters = Ok(vec![]);
    let agents = agent_needs(None, None);
    let specs = slots();
    let needs = placement_needs(&workflow, &adapters, &agents, &specs, "codex");
    assert!(needs.contained);
    assert!(needs.vessels[0].agents.is_empty() && !needs.vessels[0].contained);
    assert_eq!(needs.vessels[1].agents, agents);
    assert!(needs.vessels[1].contained);
    assert_eq!(needs.vessels[1].credential_refs, texts(&["b"]));
}
