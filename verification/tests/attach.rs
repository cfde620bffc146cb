use flotilla_core::address::{LiveConvoyRecord, RoleAddress};
use flotilla_core::attach::{
    attach_candidate_index, attach_reference_keys, attach_reference_label, fleet_row_attach_reference_keys,
    fleet_row_attach_reference_label, AttachCache, AttachInput, AttachTarget, CheckoutRow, DurableSession, IndependentRow, LiveConvoy,
    SessionHome,
};
use flotilla_core::attach_route::{
    attach_project_context, attach_route, attach_step, binding_reference, canonical_host, checkout_terminal_session, local_attach_container, next_hop_for,
    registry_environment, remote_attach_command, row_binding, session_binding, session_owner, target_host_for_resource_ref, AttachArg,
    AttachBinding, AttachMode, AttachRoute, AttachStep, EnvironmentLookup, LocalAttach, ProjectMembership,
};
use flotilla_core::fleet::{FleetListRow, FleetStaleness};
use flotilla_core::model::{CrewLabels, PlacementTargetHost, SessionPhase, SessionSource, SessionStatus, TerminalSession};
use flotilla_core::ordered::OrderedMap;
use flotilla_core::time::Timestamp;
use std::sync::Arc;

fn text(value: &str) -> Option<String> {
    Some(value.to_string())
}

fn labels(convoy: Option<&str>, vessel: Option<&str>, role: Option<&str>, vessel_ref: Option<&str>) -> CrewLabels {
    CrewLabels {
        convoy: convoy.map(str::to_string),
        vessel: vessel.map(str::to_string),
        role: role.map(str::to_string),
        vessel_ref: vessel_ref.map(str::to_string),
    }
}

fn session(name: &str, labels: CrewLabels, phase: SessionPhase) -> TerminalSession {
    TerminalSession {
        name: name.to_string(),
        namespace: "flotilla".to_string(),
        labels,
        role: "worker".to_string(),
        env_ref: "env-1".to_string(),
        source: SessionSource::Tool,
        status: Some(SessionStatus {
            phase,
            attention: None,
            degraded_reason: None,
            crew: None,
            completion_pending: None,
            delivered_message_id: None,
        }),
    }
}

fn row(convoy: &str, crew: &str, host: &str, session: Option<&str>) -> FleetListRow {
    FleetListRow {
        convoy: convoy.to_string(),
        convoy_ref: text("convoy-opaque"),
        vessel: "convoy-opaque-implement".to_string(),
        authority: None,
        crew: crew.to_string(),
        crew_state: "running".to_string(),
        attention: None,
        host: host.to_string(),
        placement_decision: None,
        namespace: "flotilla".to_string(),
        session: session.map(str::to_string),
        staleness: FleetStaleness::Fresh { last_sync: Timestamp::at(1786795200, 0).expect("an instant") },
    }
}

fn host(reference: &str, display_name: &str) -> PlacementTargetHost {
    PlacementTargetHost { reference: reference.to_string(), display_name: display_name.to_string() }
}

fn input(durable: Vec<DurableSession>) -> AttachInput {
    AttachInput {
        host_name: "kiwi".to_string(),
        convoys: vec![LiveConvoy {
            name: "convoy-andamento".to_string(),
            role: "governor".to_string(),
            project_ref: text("andamento"),
            phase: None,
        }],
        durable,
        observed: vec![],
        checkouts: vec![],
        replica_hosts: vec![],
        replicas: OrderedMap::new(),
    }
}

#[test]
fn remote_fleet_attach_references_use_the_canonical_role_address() {
    let row = row("inspector @ flotilla", "implement/coder", "remote", Some("session-opaque"));

    let references = fleet_row_attach_reference_keys(&row);
    assert!(references.contains(&"inspector@flotilla".to_string()));
    assert!(references.contains(&"inspector@flotilla/implement/coder".to_string()));
    assert!(references.contains(&"convoy-opaque".to_string()));
    assert!(!references.contains(&"inspector @ flotilla".to_string()));
    assert_eq!(fleet_row_attach_reference_label(&row), "inspector @ flotilla/implement/coder (remote)");
}

#[test]
fn a_row_without_crew_is_labelled_by_its_convoy() {
    let row = row("governor @ fleet", "-", "remote", None);
    assert_eq!(fleet_row_attach_reference_label(&row), "governor @ fleet (remote)");
    assert_eq!(fleet_row_attach_reference_keys(&row), vec!["-", "convoy-opaque", "convoy-opaque-implement", "governor@fleet"]);
}

#[test]
fn a_session_answers_to_every_part_of_its_labels() {
    let crew = labels(Some("convoy-1"), Some("implement"), Some("coder"), Some("vessel-1"));
    assert_eq!(
        attach_reference_keys("session-1", &crew, &text("governor@fleet")),
        vec![
            "coder",
            "convoy-1",
            "convoy-1/implement",
            "convoy-1/implement/coder",
            "governor@fleet",
            "governor@fleet/implement",
            "governor@fleet/implement/coder",
            "session-1",
            "vessel-1",
            "vessel-1/coder",
        ]
    );
    assert_eq!(attach_reference_label("session-1", &crew, &text("governor@fleet")), "governor @ fleet (session-1)");
    assert_eq!(attach_reference_label("session-1", &crew, &None), "convoy-1/implement/coder (session-1)");
    assert_eq!(attach_reference_label("session-1", &labels(None, None, None, None), &None), "session-1");
}

#[test]
fn an_attach_reference_selects_one_running_session() {
    let governor = session("governor-session", labels(Some("convoy-andamento"), Some("work"), Some("governor"), None), SessionPhase::Running);
    let stopped = session("stopped-session", labels(None, None, None, None), SessionPhase::Stopped);
    let index = attach_candidate_index(&input(vec![
        DurableSession { session: Arc::new(governor), home: SessionHome::Local },
        DurableSession { session: Arc::new(stopped), home: SessionHome::Local },
    ]));
    assert_eq!(index.select("governor@andamento", &None), Ok(0));
    assert_eq!(index.select("governor-sess", &None), Ok(0));
    assert_eq!(index.candidates[0].label, "governor @ andamento (governor-session)");
    assert_eq!(index.candidates[0].host, "kiwi");
    assert_eq!(index.select("  ", &None), Err("attach reference is required".to_string()));
    assert_eq!(index.select("stopped-session", &None), Err("no attach target matching 'stopped-session'".to_string()));
    assert_eq!(
        index.select("governor@andamento", &text("udder")),
        Err("no attach target matching 'governor@andamento' on host 'udder'".to_string())
    );
}

#[test]
fn an_attach_reference_that_names_two_sessions_is_ambiguous() {
    let one = session("one", labels(Some("convoy-1"), Some("work"), Some("coder"), None), SessionPhase::Running);
    let two = session("two", labels(Some("convoy-2"), Some("work"), Some("coder"), None), SessionPhase::Running);
    let index = attach_candidate_index(&input(vec![
        DurableSession { session: Arc::new(one), home: SessionHome::Local },
        DurableSession { session: Arc::new(two), home: SessionHome::Replica(text("feta")) },
    ]));
    assert_eq!(
        index.select("coder", &None),
        Err("attach reference 'coder' is ambiguous: convoy-1/work/coder (one), convoy-2/work/coder (two)".to_string())
    );
    assert_eq!(index.select("coder", &text("feta")), Ok(1));
    assert!(matches!(index.candidates[1].target, AttachTarget::Replica(_)));
}

#[test]
fn checkouts_and_replica_rows_can_be_attached_to() {
    let mut replicas = OrderedMap::new();
    replicas.insert(
        "feta".to_string(),
        AttachCache {
            rows: vec![row("governor @ fleet", "implement/coder", "feta", Some("session-opaque"))],
            independents: vec![IndependentRow {
                attach: text("shell-1"),
                running: true,
                name: "shell".to_string(),
                namespace: "flotilla".to_string(),
                scoped: false,
            }],
        },
    );
    let mut input = input(vec![]);
    input.checkouts = vec![
        CheckoutRow { path: "/work/app".to_string(), host: "kiwi".to_string(), for_convoy: None },
        CheckoutRow { path: "/work/taken".to_string(), host: "kiwi".to_string(), for_convoy: text("convoy-1") },
    ];
    input.replica_hosts = vec!["feta".to_string()];
    input.replicas = replicas;
    let index = attach_candidate_index(&input);
    assert!(index.select("/work/app", &None).is_ok());
    assert!(index.select("/work/taken", &None).is_err());
    assert!(index.select("governor@fleet", &None).is_ok());
    assert!(index.select("shell-1", &text("feta")).is_ok());
}

#[test]
fn a_live_record_is_attached_to_at_its_owner() {
    let live = Some(LiveConvoyRecord {
        address: RoleAddress { project: "andamento".to_string(), role: "governor".to_string() },
        record_name: "convoy-andamento".to_string(),
        owner_host: "feta".to_string(),
    });
    assert_eq!(
        attach_route("governor@andamento", &live, &None, "kiwi"),
        Ok(AttachRoute::Owner {
            host: "feta".to_string(),
            reference: "governor@andamento".to_string(),
            convoy: "convoy-andamento".to_string(),
            role: "governor".to_string(),
        })
    );
    assert_eq!(
        attach_route("governor@andamento", &live, &text("udder"), "kiwi"),
        Err("no attach target matching 'governor@andamento' on host 'udder'".to_string())
    );
    assert_eq!(attach_route("governor", &None, &None, "kiwi"), Ok(AttachRoute::Index { reference: "governor".to_string() }));
    assert_eq!(
        attach_route("governor@andamento", &live, &None, "feta"),
        Ok(AttachRoute::Index { reference: "convoy-andamento".to_string() })
    );
}

#[test]
fn only_checkouts_can_be_attached_to_transiently() {
    let checkout = AttachTarget::Checkout(CheckoutRow { path: "/work/app".to_string(), host: "kiwi".to_string(), for_convoy: None });
    assert_eq!(attach_step(&checkout, true, "kiwi"), Ok(AttachStep::CheckoutTerminal));
    assert_eq!(
        attach_step(&checkout, false, "kiwi"),
        Err("checkout '/work/app' is only available as a transient attach target".to_string())
    );
    assert_eq!(attach_step(&checkout, true, "feta"), Ok(AttachStep::Remote { host: "kiwi".to_string() }));
    let local = AttachTarget::Local(Arc::new(session("one", labels(None, None, None, None), SessionPhase::Running)));
    assert_eq!(attach_step(&local, false, "kiwi"), Ok(AttachStep::Session));
    let remote = AttachTarget::Replica(row("governor @ fleet", "-", "feta", Some("session-opaque")));
    assert_eq!(attach_step(&remote, false, "kiwi"), Ok(AttachStep::Remote { host: "feta".to_string() }));
}

#[test]
fn bindings_say_what_was_attached_to() {
    let s = session("one", labels(Some("convoy-1"), Some("work"), Some("coder"), None), SessionPhase::Running);
    assert_eq!(
        session_binding(&s, "kiwi"),
        AttachBinding {
            host: "kiwi".to_string(),
            namespace: "flotilla".to_string(),
            session: text("one"),
            convoy: text("convoy-1"),
            vessel: text("work"),
            role: text("coder"),
        }
    );
    let bound = row_binding(&row("governor @ fleet", "implement/coder", "feta", Some("session-opaque")));
    assert_eq!(bound.convoy, text("convoy-opaque"));
    assert_eq!(bound.role, text("coder"));
    assert_eq!(bound.vessel, text("implement"));
    assert_eq!(binding_reference(&bound), Ok("session-opaque".to_string()));
    let nothing = AttachBinding {
        host: "feta".to_string(),
        namespace: "flotilla".to_string(),
        session: None,
        convoy: None,
        vessel: None,
        role: None,
    };
    assert_eq!(
        binding_reference(&nothing),
        Err("remote attach binding has neither a session nor convoy reference".to_string())
    );
}

#[test]
fn hosts_are_found_by_their_canonical_reference() {
    assert_eq!(canonical_host("feta", &Ok(Some(host("host-1", "feta")))), Ok(host("host-1", "feta")));
    assert_eq!(canonical_host("feta", &Ok(None)), Err("references unknown host `feta`".to_string()));
    assert_eq!(canonical_host("feta", &Err("two hosts".to_string())), Err("two hosts".to_string()));
    assert_eq!(target_host_for_resource_ref("host-1", &Ok(Some(host("host-1", "feta"))), &text("host-1"), "kiwi"), Ok("kiwi".to_string()));
}

#[test]
fn a_session_belongs_to_the_host_of_its_environment() {
    let found = EnvironmentLookup::Found { host_ref: text("host-1"), host: Ok(Some(host("host-1", "feta"))) };
    assert_eq!(session_owner("env-1", &found, &text("host-1"), "kiwi"), Ok("kiwi".to_string()));
    assert_eq!(
        session_owner("env-1", &EnvironmentLookup::Failed("gone".to_string()), &None, "kiwi"),
        Err("environment env-1 lookup failed: gone".to_string())
    );
    let unbound = EnvironmentLookup::Found { host_ref: None, host: Ok(None) };
    assert_eq!(session_owner("env-1", &unbound, &None, "kiwi"), Err("environment env-1 has no host binding".to_string()));
}

#[test]
fn the_next_hop_is_the_route_or_the_host_itself() {
    assert_eq!(next_hop_for("feta", &text("udder"), "kiwi"), Ok("udder".to_string()));
    assert_eq!(next_hop_for("feta", &None, "kiwi"), Ok("feta".to_string()));
    assert_eq!(
        next_hop_for("feta", &text("kiwi"), "kiwi"),
        Err("unreachable next hop for host 'feta': route points back to local host".to_string())
    );
}

#[test]
fn a_remote_attach_leaves_no_identity_behind() {
    let literal = |value: &str| AttachArg::Literal(value.to_string());
    let quoted = |value: &str| AttachArg::Quoted(value.to_string());
    assert_eq!(
        remote_attach_command("feta", "governor@fleet", AttachMode::Take),
        vec![
            literal("flotilla"),
            literal("attach"),
            literal("--host"),
            quoted("feta"),
            literal("--transient"),
            literal("--take"),
            quoted("governor@fleet"),
        ]
    );
    assert_eq!(remote_attach_command("feta", "x", AttachMode::Default).len(), 6);
    assert_eq!(remote_attach_command("feta", "x", AttachMode::Strict)[5], literal("--strict"));
}

#[test]
fn one_project_that_holds_a_repository_is_the_context() {
    let member = |name: &str, repositories: &[&str], bootstrap: Option<&str>| ProjectMembership {
        name: name.to_string(),
        repositories: repositories.iter().map(|r| r.to_string()).collect(),
        bootstrap_repository: bootstrap.map(str::to_string),
    };
    let projects = vec![member("andamento", &["repo-a"], None), member("fleet", &["repo-b"], Some("repo-c"))];
    assert_eq!(attach_project_context(&projects, "repo-a"), text("andamento"));
    assert_eq!(attach_project_context(&projects, "repo-z"), None);
    let shared = vec![member("andamento", &["repo-a"], None), member("fleet", &["repo-a"], None)];
    assert_eq!(attach_project_context(&shared, "repo-a"), None);
    let declared = vec![member("andamento", &["repo-a"], None), member("fleet", &["repo-a"], Some("repo-a"))];
    assert_eq!(attach_project_context(&declared, "repo-a"), text("fleet"));
}

#[test]
fn a_local_attach_needs_its_pool() {
    let direct = LocalAttach { pool: "shpool".to_string(), pool_available: true, docker: false, container: None };
    assert_eq!(local_attach_container("env-1", &direct), Ok(None));
    let contained = LocalAttach { pool: "shpool".to_string(), pool_available: true, docker: true, container: text("box") };
    assert_eq!(local_attach_container("env-1", &contained), Ok(text("box")));
    let missing = LocalAttach { pool: "shpool".to_string(), pool_available: true, docker: true, container: None };
    assert_eq!(local_attach_container("env-1", &missing), Err("environment env-1 has no docker container id".to_string()));
    let absent = LocalAttach { pool: "shpool".to_string(), pool_available: false, docker: false, container: None };
    assert_eq!(
        local_attach_container("env-1", &absent),
        Err("terminal pool shpool unavailable for environment env-1".to_string())
    );
}

#[test]
fn a_host_environment_of_this_host_is_the_local_one() {
    assert_eq!(
        registry_environment("env-1", &text("host-1"), &Ok(Some(host("host-1", "kiwi"))), &text("host-1"), "local-env"),
        Ok("local-env".to_string())
    );
    assert_eq!(
        registry_environment("env-1", &text("host-2"), &Ok(Some(host("host-2", "feta"))), &text("host-1"), "local-env"),
        Ok("env-1".to_string())
    );
    assert_eq!(registry_environment("env-1", &None, &Ok(None), &None, "local-env"), Ok("env-1".to_string()));
}

#[test]
fn a_terminal_is_opened_in_a_checkout() {
    let checkout = CheckoutRow { path: "/work/app".to_string(), host: "kiwi".to_string(), for_convoy: None };
    let name = checkout_terminal_session(&checkout, &Ok(true)).expect("a session");
    assert!(name.starts_with("flotilla-checkout-"));
    assert_eq!(name.len(), "flotilla-checkout-".len() + 32);
    assert_eq!(
        checkout_terminal_session(&checkout, &Ok(false)),
        Err("no terminal pool available for checkout /work/app".to_string())
    );
    assert_eq!(
        checkout_terminal_session(&checkout, &Err("denied".to_string())),
        Err("checkout /work/app provider discovery failed: denied".to_string())
    );
}

#[test]
fn resource_host_routing_refuses_unresolved_host_ref() {
    assert_eq!(
        target_host_for_resource_ref("unregistered-host-id", &Ok(None), &text("local-host"), "local-host"),
        Err("references unknown host `unregistered-host-id`".to_string())
    );
}
