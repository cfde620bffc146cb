use flotilla_core::admission_workflow::{resolve_convoy_admission_workflow, GrantReading, WorkflowReadings, WorkflowStep};
use flotilla_core::ordered::{OrderedMap, OrderedSet};
use flotilla_core::workflow::{
    agent_selectors, ambient_credential_dependent_vessels, apply_agent_overrides, has_stance, missing_agent_credential, missing_name, required_credentials,
    resolve_workflow_credentials, take_stance, validate_fork_workflow_admission, vessel_repositories, workflow_has_in_crew_review, AgentOverride,
    AgentRequirement, AgentSelector, AmbientVessel, CredentialGrant, CredentialScope, CrewSource, ForkReading, VesselCredentials,
    VesselNeeds, WorkflowVessel,
};

fn texts(items: &[&str]) -> Vec<String> {
    items.iter().map(|item| item.to_string()).collect()
}

fn agent(capability: &str) -> CrewSource {
    CrewSource::Agent { selector: AgentSelector { capability: capability.to_string(), adapter: None, model: None } }
}

fn vessel(name: &str, crew: Vec<CrewSource>) -> WorkflowVessel {
    WorkflowVessel { name: name.to_string(), stance: "contained".to_string(), repository_refs: None, crew }
}

fn choice(capability: &str, adapter: &str, model: Option<&str>) -> AgentOverride {
    AgentOverride { capability: capability.to_string(), adapter: adapter.to_string(), model: model.map(str::to_string) }
}

fn needs(name: &str, agents: Vec<Result<AgentRequirement, String>>, credentials: &[&str]) -> VesselNeeds {
    VesselNeeds { name: name.to_string(), stance: "contained".to_string(), contained: true, agents, credential_refs: texts(credentials) }
}

fn requirement(adapter: &str, slot: Option<&str>, ambient: Option<&str>) -> Result<AgentRequirement, String> {
    Ok(AgentRequirement {
        adapter: adapter.to_string(),
        delivery_slot: slot.map(str::to_string),
        ambient_scope: ambient.map(str::to_string),
    })
}

#[test]
fn a_crew_can_hold_its_own_review() {
    assert!(workflow_has_in_crew_review(&vec![vessel("work", vec![agent("implement"), agent("review")])]));
    assert!(workflow_has_in_crew_review(&vec![vessel("work", vec![agent("implement"), agent("code-review")])]));
    assert!(!workflow_has_in_crew_review(&vec![vessel("work", vec![agent("implement"), CrewSource::Tool])]));
}

#[test]
fn forks_need_a_review() {
    let fork = |reading: Result<bool, &str>| ForkReading { repo_ref: "repo-1".to_string(), reviewed_fork: reading.map_err(str::to_string) };
    let plain = vec![vessel("work", vec![agent("implement")])];
    let reviewed = vec![vessel("work", vec![agent("implement"), agent("review")])];
    assert_eq!(validate_fork_workflow_admission(&vec![fork(Ok(false))], "work", &plain), Ok(()));
    assert_eq!(validate_fork_workflow_admission(&vec![fork(Ok(true))], "work", &reviewed), Ok(()));
    assert_eq!(
        validate_fork_workflow_admission(&vec![fork(Ok(true))], "work", &plain),
        Err("workflow work not permitted for fork-stance repository \u{2014} use implement-review".to_string())
    );
    assert_eq!(validate_fork_workflow_admission(&vec![fork(Err("gone"))], "work", &plain), Err("repository repo-1: gone".to_string()));
}

#[test]
fn overrides_change_the_agents_that_they_name() {
    let vessels = vec![vessel("work", vec![agent("implement"), agent("review"), CrewSource::Tool])];
    let changed = apply_agent_overrides(&vessels, &vec![choice("implement", "codex", Some("gpt-5"))]).expect("vessels");
    assert_eq!(
        changed[0].crew[0],
        CrewSource::Agent {
            selector: AgentSelector {
                capability: "implement".to_string(),
                adapter: Some("codex".to_string()),
                model: Some("gpt-5".to_string()),
            }
        }
    );
    assert_eq!(changed[0].crew[1], agent("review"));
    assert_eq!(changed[0].crew[2], CrewSource::Tool);
}

#[test]
fn a_stance_is_taken_by_every_vessel_or_left_alone() {
    let vessels = vec![vessel("work", vec![agent("implement")]), vessel("check", vec![CrewSource::Tool])];
    let taken = take_stance(&vessels, &Some("trusted".to_string()));
    assert_eq!(taken.iter().map(|v| v.stance.as_str()).collect::<Vec<_>>(), vec!["trusted", "trusted"]);
    assert_eq!(taken[0].crew, vessels[0].crew);
    assert_eq!(take_stance(&vessels, &None), vessels);
}

#[test]
fn overrides_that_cannot_take_effect_are_refused() {
    let vessels = vec![vessel("work", vec![agent("implement"), agent("review")])];
    let refuse = |overrides: Vec<AgentOverride>| apply_agent_overrides(&vessels, &overrides).expect_err("a refusal");
    assert_eq!(
        refuse(vec![choice("implement", "codex", None), choice("implement", "other", None)]),
        "duplicate --agent override for capability `implement`"
    );
    assert_eq!(
        refuse(vec![choice("implement", "co dex", None)]),
        "agent adapter `co dex` may only contain alphanumerics, `.`, `_`, and `-`"
    );
    assert_eq!(
        refuse(vec![choice("implement", "codex", Some("a;b"))]),
        "agent model `a;b` may only contain alphanumerics, `.`, `_`, and `-`"
    );
    assert_eq!(
        refuse(vec![choice("scout", "codex", None)]),
        "--agent override names capability `scout`, but this workflow's agent capabilities are: implement, review"
    );
    assert_eq!(
        apply_agent_overrides(&vec![vessel("work", vec![CrewSource::Tool])], &vec![choice("scout", "codex", None)]),
        Err("--agent override names capability `scout`, but this workflow has no agent crew to override".to_string())
    );
}

#[test]
fn a_vessel_has_its_own_repositories_or_all() {
    assert_eq!(vessel_repositories(&None, &texts(&["a", "b"])), texts(&["a", "b"]));
    assert_eq!(vessel_repositories(&Some(texts(&["b"])), &texts(&["a", "b"])), texts(&["b"]));
    assert_eq!(missing_name(&texts(&["a", "c"]), &OrderedSet::from_strs(&texts(&["a", "b"]))), Some("c".to_string()));
    assert_eq!(missing_name(&texts(&["a"]), &OrderedSet::from_strs(&texts(&["a", "b"]))), None);
}

#[test]
fn grants_give_a_vessel_its_credentials() {
    let grant = |repositories: &[&str], credentials: &[&str]| CredentialGrant {
        repositories: texts(repositories),
        credentials: texts(credentials),
    };
    let resolved = resolve_workflow_credentials(
        &vec![vessel("work", vec![])],
        &vec![vec![grant(&["a"], &["github"]), grant(&[], &["codex"])]],
        &texts(&["a", "b"]),
        &OrderedSet::from_strs(&texts(&["github", "codex"])),
    )
    .expect("credentials");
    assert_eq!(
        resolved,
        vec![VesselCredentials {
            credential_refs: texts(&["codex", "github"]),
            credential_scopes: vec![
                CredentialScope { credential: "codex".to_string(), repositories: texts(&["a", "b"]) },
                CredentialScope { credential: "github".to_string(), repositories: texts(&["a"]) },
            ],
        }]
    );
    assert_eq!(
        resolve_workflow_credentials(
            &vec![vessel("work", vec![])],
            &vec![vec![grant(&["a"], &["gone"])]],
            &texts(&["a"]),
            &OrderedSet::new()
        ),
        Err("credential grant references missing credential `gone`".to_string())
    );
}

#[test]
fn contained_agents_need_a_granted_credential() {
    let mut specs = OrderedMap::new();
    specs.insert("codex-key".to_string(), "codex".to_string());
    let wanting = vec![needs("work", vec![requirement("codex", Some("codex"), None)], &[])];
    assert_eq!(
        missing_agent_credential(&wanting, &specs),
        Some("contained agent adapter `codex` requires credential `codex-key`, but no matching CredentialGrant selected it".to_string())
    );
    let given = vec![needs("work", vec![requirement("codex", Some("codex"), None)], &["codex-key"])];
    assert_eq!(missing_agent_credential(&given, &specs), None);
    assert_eq!(
        missing_agent_credential(&wanting, &OrderedMap::new()),
        Some("contained agent adapter `codex` requires a `codex` credential, but no matching CredentialGrant selected it".to_string())
    );
}

#[test]
fn vessels_without_a_delivered_credential_lean_on_the_login() {
    let mut specs = OrderedMap::new();
    specs.insert("codex-key".to_string(), "codex".to_string());
    let mut trusted = needs("work", vec![requirement("codex", Some("codex"), Some("login"))], &[]);
    trusted.contained = false;
    assert_eq!(
        ambient_credential_dependent_vessels(&vec![trusted], &specs),
        Ok(vec![AmbientVessel { vessel: "work".to_string(), scope: "login".to_string() }])
    );
    let mut broken = needs("work", vec![Err("unknown adapter".to_string())], &[]);
    broken.contained = false;
    assert_eq!(ambient_credential_dependent_vessels(&vec![broken], &specs), Err("unknown adapter".to_string()));
}

#[test]
fn required_credentials_are_listed_once() {
    assert_eq!(
        required_credentials(&vec![needs("a", vec![], &["z", "x"]), needs("b", vec![], &["x", "y"])]),
        texts(&["x", "y", "z"])
    );
}

#[test]
fn a_workflow_is_let_in_with_choices_review_and_credentials() {
    let plain = || vec![vessel("work", vec![agent("implement")])];
    let choices = vec![choice("implement", "codex", None)];
    let repositories = texts(&["a"]);
    let step = |rd: &WorkflowReadings| resolve_convoy_admission_workflow("work", &Some("trusted".to_string()), &choices, &repositories, rd);
    let refusal = |message: &str| WorkflowStep::Refuse { message: message.to_string() };
    let mut rd = WorkflowReadings { template: None, forks: None, grants: None };
    assert_eq!(step(&rd), WorkflowStep::AskTemplate);
    rd.template = Some(Err("gone".to_string()));
    assert_eq!(step(&rd), refusal("workflow template work: gone"));
    rd.template = Some(Ok(plain()));
    assert_eq!(step(&rd), WorkflowStep::AskForks);
    rd.forks = Some(vec![ForkReading { repo_ref: "a".to_string(), reviewed_fork: Ok(true) }]);
    assert_eq!(step(&rd), refusal("workflow work not permitted for fork-stance repository \u{2014} use implement-review"));
    rd.template = Some(Ok(vec![vessel("work", vec![agent("implement"), agent("review")])]));
    match step(&rd) {
        WorkflowStep::AskGrants { vessels } => {
            assert_eq!(vessels[0].stance, "trusted");
            assert_eq!(vessels[0].crew[1], agent("review"));
        }
        other => panic!("{other:?}"),
    }
    rd.template = Some(Ok(plain()));
    rd.forks = Some(vec![]);
    rd.grants = Some(GrantReading::GrantsUnlisted { error: "down".to_string() });
    assert_eq!(step(&rd), refusal("list credential grants: down"));
    rd.grants = Some(GrantReading::CredentialsUnlisted { error: "down".to_string() });
    assert_eq!(step(&rd), refusal("list credential specs: down"));
    let grants = vec![vec![CredentialGrant { repositories: vec![], credentials: texts(&["codex"]) }]];
    rd.grants = Some(GrantReading::Listed { grants, specs: OrderedSet::from_strs(&texts(&["codex"])) });
    match step(&rd) {
        WorkflowStep::Resolved { workflow } => {
            let vessels = workflow.vessels;
            assert_eq!(
                vessels[0].crew,
                vec![CrewSource::Agent {
                    selector: AgentSelector { capability: "implement".to_string(), adapter: Some("codex".to_string()), model: None }
                }]
            );
            assert_eq!(vessels[0].stance, "trusted");
            assert_eq!(workflow.credentials[0].credential_refs, texts(&["codex"]));
            assert_eq!(workflow.credentials[0].credential_scopes[0].repositories, texts(&["a"]));
        }
        other => panic!("{other:?}"),
    }
}

#[test]
fn a_vessel_is_granted_nothing_where_no_grant_selects_it() {
    let mut own = vessel("own", vec![]);
    own.repository_refs = Some(texts(&["b"]));
    let grant = CredentialGrant { repositories: vec![], credentials: texts(&["github"]) };
    let resolved = resolve_workflow_credentials(
        &vec![own, vessel("other", vec![])],
        &vec![vec![grant]],
        &texts(&["a", "b"]),
        &OrderedSet::from_strs(&texts(&["github"])),
    )
    .expect("credentials");
    assert_eq!(resolved[0].credential_scopes[0].repositories, texts(&["b"]));
    assert_eq!(resolved[1], VesselCredentials { credential_refs: vec![], credential_scopes: vec![] });
}

#[test]
fn the_selectors_of_a_workflow_are_listed_vessel_by_vessel() {
    let vessels = vec![vessel("a", vec![agent("implement"), CrewSource::Tool]), vessel("b", vec![agent("review")])];
    let capabilities: Vec<String> = agent_selectors(&vessels).into_iter().map(|selector| selector.capability).collect();
    assert_eq!(capabilities, texts(&["implement", "review"]));
    assert!(has_stance(&vessels, "contained"));
    assert!(!has_stance(&vessels, "trusted"));
}
