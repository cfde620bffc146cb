use flotilla_core::health::HostCondition;
use flotilla_core::model::{ConditionValue, PlacementTargetHost};
use flotilla_core::ordered::{OrderedMap, OrderedSet};
use flotilla_core::placement::{
    canonical_placement_host_ref_from_sources, check_placement_capacity, check_remote_placement_free_space_floor,
    checked_default_placement, default_convoy_placement_policy, home_copy_wins_by_name, host_generation,
    local_placement_capabilities, named_convoy_placement, placement_agent_adapters, placement_decision, placement_host_not_ready_reason, placement_host_ref,
    placement_ordering_reason, placement_target_host, remote_placement_host, validate_workflow_agent_adapters,
    validate_workflow_credentials, Capacity, CapacityCheck, CapacitySource, DockerPolicy, HostReadiness, HostRecord, NamedCopy,
    PlacementNeeds, PlacementPolicy, PlacementResolution, PolicyReading, ProviderStatus, ViablePolicy,
};
use flotilla_core::time::Timestamp;
use flotilla_core::workflow::{AgentRequirement, VesselNeeds};

fn texts(items: &[&str]) -> Vec<String> {
    items.iter().map(|item| item.to_string()).collect()
}

fn text(value: &str) -> Option<String> {
    Some(value.to_string())
}

fn host(reference: &str) -> PlacementTargetHost {
    PlacementTargetHost { reference: reference.to_string(), display_name: format!("{reference}-name") }
}

fn ready(adapters: &[&str]) -> HostReadiness {
    HostReadiness {
        ready: true,
        generation: text("g1"),
        conditions: vec![],
        agent_adapters: Ok(texts(adapters)),
        held_credentials: Ok(OrderedSet::from_strs(&texts(&["github"]))),
        expired: Ok(OrderedMap::new()),
    }
}

fn direct(name: &str, priority: i64, host_ref: &str, local: bool, adapters: &[&str]) -> PolicyReading {
    PolicyReading {
        policy: PlacementPolicy { name: name.to_string(), priority, host_direct: text(host_ref), docker: None },
        local,
        canonical: Ok(Some(host(host_ref))),
        host: Ok(Some(ready(adapters))),
    }
}

fn docker(name: &str, priority: i64, host_ref: &str, adapters: &[&str]) -> PolicyReading {
    PolicyReading {
        policy: PlacementPolicy {
            name: name.to_string(),
            priority,
            host_direct: None,
            docker: Some(DockerPolicy {
                host_ref: host_ref.to_string(),
                image: "crew:latest".to_string(),
                agent_adapters: texts(adapters),
            }),
        },
        local: true,
        canonical: Ok(Some(host(host_ref))),
        host: Ok(Some(ready(adapters))),
    }
}

fn needs(contained: bool, adapters: &[&str]) -> PlacementNeeds<'static> {
    PlacementNeeds {
        contained,
        adapters: Box::leak(Box::new(Ok(texts(adapters)))),
        vessels: vec![],
        specs: Box::leak(Box::new(Ok(OrderedMap::new()))),
        ambient_login: "codex",
    }
}

fn vessel(credentials: &[&str], ambient: Option<&str>) -> VesselNeeds {
    VesselNeeds {
        name: "work".to_string(),
        stance: "trusted".to_string(),
        contained: false,
        agents: vec![Ok(AgentRequirement {
            adapter: "codex".to_string(),
            delivery_slot: None,
            ambient_scope: ambient.map(str::to_string),
        })],
        credential_refs: texts(credentials),
    }
}

#[test]
fn the_local_copy_of_a_record_wins() {
    let copy = |name: &str, local: bool| NamedCopy { name: name.to_string(), local };
    assert_eq!(
        home_copy_wins_by_name(&vec![copy("b", false), copy("a", false), copy("a", true), copy("b", false)]).len(),
        2
    );
    let kept = home_copy_wins_by_name(&vec![copy("a", false), copy("a", true)]);
    assert_eq!(kept, vec![1]);
}

#[test]
fn a_policy_names_its_host() {
    assert_eq!(placement_host_ref(&direct("p", 0, "host-1", true, &[]).policy), text("host-1"));
    assert_eq!(placement_host_ref(&docker("p", 0, "host-2", &[]).policy), text("host-2"));
    let none = PlacementPolicy { name: "p".to_string(), priority: 0, host_direct: None, docker: None };
    assert_eq!(placement_host_ref(&none), None);
    assert_eq!(placement_target_host(&direct("p", 0, "host-1", true, &[])), Ok(host("host-1")));
    let mut lost = direct("p", 0, "host-1", true, &[]);
    lost.canonical = Ok(None);
    assert_eq!(placement_target_host(&lost), Err("placement `p` references unknown host `host-1`".to_string()));
    lost.canonical = Err("is ambiguous".to_string());
    assert_eq!(placement_target_host(&lost), Err("placement `p` is ambiguous".to_string()));
    lost.policy.host_direct = None;
    assert_eq!(placement_target_host(&lost), Err("placement `p` has no target host".to_string()));
}

#[test]
fn a_canonical_reference_finds_its_host() {
    let hosts = vec![HostRecord { name: "host-1".to_string(), display_name: "kiwi".to_string() }];
    assert_eq!(
        canonical_placement_host_ref_from_sources(&hosts, &Ok(text("host-1"))),
        Ok(Some(PlacementTargetHost { reference: "host-1".to_string(), display_name: "kiwi".to_string() }))
    );
    assert_eq!(canonical_placement_host_ref_from_sources(&hosts, &Ok(None)), Ok(None));
    assert_eq!(canonical_placement_host_ref_from_sources(&hosts, &Err("two".to_string())), Err("two".to_string()));
}

#[test]
fn a_host_that_is_not_ready_says_why() {
    assert_eq!(host_generation(&None), "unknown");
    assert_eq!(host_generation(&text("g1")), "g1");
    let condition = HostCondition {
        condition_type: "DiskSpace".to_string(),
        value: ConditionValue::False,
        reason: "Low".to_string(),
        message: "almost full".to_string(),
        blocks_readiness: true,
    };
    assert_eq!(
        placement_host_not_ready_reason("p", "kiwi", "g1", &vec![condition]),
        "placement `p` host `kiwi` generation `g1` is not ready: Low: almost full"
    );
    assert_eq!(placement_host_not_ready_reason("p", "kiwi", "g1", &vec![]), "placement `p` host `kiwi` generation `g1` is not ready");
}

#[test]
fn agents_must_be_at_the_placement() {
    assert_eq!(placement_agent_adapters(&docker("p", 0, "host-1", &["codex"])), Ok((texts(&["codex"]), "image `crew:latest`".to_string())));
    let here = direct("p", 0, "host-1", true, &["codex"]);
    assert_eq!(placement_agent_adapters(&here), Ok((texts(&["codex"]), "host `host-1-name`".to_string())));
    assert_eq!(validate_workflow_agent_adapters(&Ok(texts(&["codex"])), Some(&here)), Ok(()));
    assert_eq!(
        validate_workflow_agent_adapters(&Ok(texts(&["other"])), Some(&here)),
        Err("workflow requires agent adapter `other`, which is not available in placement `p` (host `host-1-name`)".to_string())
    );
    assert_eq!(
        validate_workflow_agent_adapters(&Ok(texts(&["other"])), None),
        Err("workflow requires agent adapter `other`, but no placement is available".to_string())
    );
    assert_eq!(validate_workflow_agent_adapters(&Ok(vec![]), None), Ok(()));
    assert_eq!(validate_workflow_agent_adapters(&Err("bad crew".to_string()), None), Err("bad crew".to_string()));
    let mut silent = direct("p", 0, "host-1", true, &[]);
    silent.host = Ok(None);
    assert_eq!(
        placement_agent_adapters(&silent),
        Err("placement `p` host `host-1-name` generation `unknown` has no observed status".to_string())
    );
}

#[test]
fn credentials_must_be_held_and_not_expired() {
    let here = direct("p", 0, "host-1", true, &["codex"]);
    assert_eq!(validate_workflow_credentials(&vec![vessel(&["github"], None)], &Ok(OrderedMap::new()), "codex", Some(&here)), Ok(()));
    assert_eq!(
        validate_workflow_credentials(&vec![vessel(&["npm"], None)], &Ok(OrderedMap::new()), "codex", Some(&here)),
        Err("workflow requires credential `npm`, which placement `p` host `host-1-name` generation `g1` does not hold".to_string())
    );
    assert_eq!(
        validate_workflow_credentials(&vec![vessel(&["npm"], None)], &Ok(OrderedMap::new()), "codex", None),
        Err("workflow requires credential `npm`, but no placement is available".to_string())
    );
    assert_eq!(
        validate_workflow_credentials(&vec![vessel(&[], None)], &Err("down".to_string()), "codex", Some(&here)),
        Err("list credential specs: down".to_string())
    );
    let mut expired = OrderedMap::new();
    expired.insert("github".to_string(), Timestamp::at(1786795200, 0).expect("an instant"));
    expired.insert("login".to_string(), Timestamp::at(1786795200, 0).expect("an instant"));
    let mut late = ready(&["codex"]);
    late.expired = Ok(expired);
    let mut there = direct("p", 0, "host-1", true, &["codex"]);
    there.host = Ok(Some(late));
    assert_eq!(
        validate_workflow_credentials(&vec![vessel(&["github"], None)], &Ok(OrderedMap::new()), "codex", Some(&there)),
        Err("credential `github` expired on host `host-1-name` on 2026-08-15 \u{2014} refresh its material before dispatching".to_string())
    );
    assert_eq!(
        validate_workflow_credentials(&vec![vessel(&[], Some("login"))], &Ok(OrderedMap::new()), "codex", Some(&there)),
        Err("vessel `work` depends on the ambient codex login on host `host-1-name`, which expired on 2026-08-15 \u{2014} log in again on \
             that host or grant a delivered codex credential"
            .to_string())
    );
}

#[test]
fn the_highest_priority_is_chosen_and_the_others_say_why_not() {
    let sources = vec![direct("low", 1, "host-1", true, &["codex"]), direct("high", 5, "host-2", false, &["codex"])];
    let resolution = default_convoy_placement_policy(&needs(false, &["codex"]), Some(&sources), &text("host-1")).expect("a placement");
    assert_eq!(resolution.selected, Some(1));
    assert_eq!(resolution.viable_not_selected.len(), 1);
    assert_eq!(resolution.viable_not_selected[0].reason, "priority 1 is lower than selected policy `high` priority 5");
    let decision = placement_decision(resolution, Some(&sources[1])).expect("a decision").expect("a policy");
    assert_eq!(decision.policy_name, "high");
    assert_eq!(decision.target_host, host("host-2"));
    assert_eq!(decision.viable_not_selected[0].policy_name, "low");
}

#[test]
fn ties_prefer_local_then_host_direct_then_name() {
    let viable = |name: &str, local: bool, host_direct: bool| ViablePolicy {
        at: 0,
        name: name.to_string(),
        priority: 0,
        local,
        host_direct,
        target: host("host-1"),
    };
    assert_eq!(
        placement_ordering_reason(&viable("a", true, true), &viable("b", false, true)),
        "fallback ordering preferred local policy `a`"
    );
    assert_eq!(
        placement_ordering_reason(&viable("a", true, true), &viable("b", true, false)),
        "fallback ordering preferred host-direct policy `a`"
    );
    assert_eq!(
        placement_ordering_reason(&viable("a", true, true), &viable("b", true, true)),
        "fallback ordering preferred policy `a` by name"
    );
}

#[test]
fn an_unsatisfiable_workflow_lists_every_candidate() {
    let sources = vec![direct("b", 0, "host-2", false, &[]), direct("a", 0, "host-1", true, &[])];
    assert_eq!(
        default_convoy_placement_policy(&needs(false, &["codex"]), Some(&sources), &text("host-1")).expect_err("no placement"),
        "no placement policy satisfies adapter `codex`; candidates:\n\
         - `a`: workflow requires agent adapter `codex`, which is not available in placement `a` (host `host-1-name`)\n\
         - `b`: workflow requires agent adapter `codex`, which is not available in placement `b` (host `host-2-name`)"
    );
    assert_eq!(
        default_convoy_placement_policy(&needs(false, &["codex", "other"]), Some(&vec![]), &None).expect_err("no placement"),
        "no placement policy satisfies adapters `codex`, `other`; candidates: (none)"
    );
    let waiting = default_convoy_placement_policy(&needs(false, &["codex"]), None, &None).expect("a convoy that waits");
    assert_eq!(waiting.selected, None);
    assert!(waiting.refused_candidates.is_empty());
}

#[test]
fn contained_work_needs_a_docker_placement() {
    let sources = vec![direct("direct", 9, "host-1", true, &["codex"]), docker("box", 0, "host-1", &["codex"])];
    let resolution = default_convoy_placement_policy(&needs(true, &["codex"]), Some(&sources), &text("host-1")).expect("a placement");
    assert_eq!(resolution.selected, Some(1));
    assert_eq!(
        resolution.refused_candidates[0].reason,
        "contained workflow requires a docker placement policy, but direct is not contained"
    );
    assert_eq!(
        named_convoy_placement(&needs(true, &["codex"]), "direct", &Ok(direct("direct", 9, "host-1", true, &["codex"]))),
        Err("contained workflow requires a docker placement policy, but direct is not contained".to_string())
    );
    assert_eq!(
        named_convoy_placement(&needs(true, &[]), "gone", &Err("not found".to_string())),
        Err("placement policy gone: not found".to_string())
    );
    assert_eq!(
        checked_default_placement(
            &needs(true, &[]),
            &vec![],
            Ok(PlacementResolution { selected: None, refused_candidates: vec![], viable_not_selected: vec![] })
        ),
        Err("contained workflow requires an available docker placement policy".to_string())
    );
}

#[test]
fn work_on_another_host_names_it() {
    let there = Ok(direct("p", 0, "host-2", false, &[]));
    assert_eq!(remote_placement_host(Some("p"), &there, &text("host-1")), Ok(text("host-2")));
    assert_eq!(remote_placement_host(Some("p"), &there, &text("host-2")), Ok(None));
    assert_eq!(remote_placement_host(None, &there, &text("host-1")), Ok(None));
    assert_eq!(
        remote_placement_host(Some("p"), &Err("not found".to_string()), &None),
        Err("placement policy p: not found".to_string())
    );
}

#[test]
fn a_host_needs_room() {
    let target = host("host-1");
    assert_eq!(check_placement_capacity(&target, Some(Capacity { floor_bytes: 0, free_bytes: None })), CapacityCheck::Admitted);
    assert_eq!(
        check_placement_capacity(&target, None),
        CapacityCheck::Refused {
            message: "placement refused on host `host-1-name`: admission free-space floor is unavailable".to_string()
        }
    );
    assert_eq!(
        check_placement_capacity(&target, Some(Capacity { floor_bytes: 5, free_bytes: None })),
        CapacityCheck::Refused { message: "placement refused on host `host-1-name`: free space is unavailable".to_string() }
    );
    assert_eq!(
        check_placement_capacity(&target, Some(Capacity { floor_bytes: 5, free_bytes: Some(9) })),
        CapacityCheck::Measured { host: "host-1-name".to_string(), free_bytes: 9, floor_bytes: 5 }
    );
}

#[test]
fn only_other_hosts_are_asked_for_room() {
    let source = |name: &str, local: bool, floor: u64, free: u64| CapacitySource {
        name: name.to_string(),
        local,
        floor_bytes: Some(floor),
        free_bytes: Some(free),
    };
    let target = host("host-2");
    assert_eq!(check_remote_placement_free_space_floor(None, &vec![], false, &text("host-1")), CapacityCheck::Admitted);
    assert_eq!(
        check_remote_placement_free_space_floor(Some(&target), &vec![source("host-2", false, 5, 9)], false, &text("host-1")),
        CapacityCheck::Measured { host: "host-2-name".to_string(), free_bytes: 9, floor_bytes: 5 }
    );
}

#[test]
fn local_capabilities_are_listed_in_order() {
    let status = |category: &str, implementation: &str| ProviderStatus {
        category: category.to_string(),
        implementation: implementation.to_string(),
    };
    assert_eq!(
        local_placement_capabilities(&texts(&["codex", "aider"]), "agent", &texts(&["shpool"]), "pool"),
        vec![status("agent", "aider"), status("agent", "codex"), status("pool", "shpool")]
    );
}

fn plain_host(reference: &str) -> PlacementTargetHost {
    PlacementTargetHost { reference: reference.to_string(), display_name: reference.to_string() }
}

fn on(name: &str, host_ref: &str, target: Result<Option<PlacementTargetHost>, String>, status: Option<HostReadiness>) -> PolicyReading {
    PolicyReading {
        policy: PlacementPolicy { name: name.to_string(), priority: 0, host_direct: text(host_ref), docker: None },
        local: true,
        canonical: target,
        host: Ok(status),
    }
}

#[test]
fn placement_decision_prefers_local_home_copy_over_same_name_replica() {
    let copy = |host_ref: &str, priority: i64, local: bool| PolicyReading {
        policy: PlacementPolicy { name: "shared-policy".to_string(), priority, host_direct: text(host_ref), docker: None },
        local,
        canonical: Ok(Some(plain_host(host_ref))),
        host: Ok(None),
    };
    let sources = vec![copy("replica-host", 100, false), copy("local-host", 0, true)];
    let resolution = default_convoy_placement_policy(&needs(false, &[]), Some(&sources), &None).expect("resolve placement");
    let selected = resolution.selected.expect("select local home policy");
    assert_eq!(placement_host_ref(&sources[selected].policy), text("local-host"));
    assert!(resolution.viable_not_selected.is_empty());
}

#[test]
fn placement_target_host_rejects_unknown_display_name() {
    assert_eq!(
        placement_target_host(&on("unknown-host", "missing-host", Ok(None), None)),
        Err("placement `unknown-host` references unknown host `missing-host`".to_string())
    );
}

#[test]
fn placement_target_host_rejects_ambiguous_display_name() {
    let ambiguous = Err("host reference `shared-name` is ambiguous".to_string());
    assert_eq!(
        placement_target_host(&on("ambiguous-host", "shared-name", ambiguous, None)),
        Err("placement `ambiguous-host` host reference `shared-name` is ambiguous".to_string())
    );
}

#[test]
fn default_placement_prefers_local_host_referenced_by_display_name() {
    let local = PlacementTargetHost { reference: "local-host-id".to_string(), display_name: "local-host".to_string() };
    let sources = vec![
        on("host-direct-a-remote", "remote-host", Ok(Some(plain_host("remote-host"))), Some(ready(&["codex"]))),
        on("host-direct-z-local", "local-host", Ok(Some(local)), Some(ready(&["codex"]))),
    ];
    let resolution =
        default_convoy_placement_policy(&needs(false, &["codex"]), Some(&sources), &text("local-host-id")).expect("default placement");
    assert_eq!(sources[resolution.selected.expect("viable placement")].policy.name, "host-direct-z-local");
    assert_eq!(resolution.viable_not_selected[0].reason, "fallback ordering preferred local policy `host-direct-z-local`");
}

#[test]
fn default_placement_refuses_unknown_host_without_blocking_tool_workflow() {
    let sources = vec![
        on("a-unknown-host", "deleted-host", Ok(None), None),
        on("z-clean", "clean-host", Ok(Some(plain_host("clean-host"))), Some(ready(&[]))),
    ];
    let resolution = default_convoy_placement_policy(&needs(false, &[]), Some(&sources), &None).expect("clean candidate");
    assert_eq!(sources[resolution.selected.expect("clean placement")].policy.name, "z-clean");
    assert_eq!(resolution.refused_candidates[0].policy_name, "a-unknown-host");
}

#[test]
fn default_placement_error_lists_each_refusal_and_failed_host_condition_reason() {
    let degraded = |policy: &str, name: &str, reason: &str, message: &str| {
        let mut status = ready(&["codex"]);
        status.ready = false;
        status.generation = Some(format!("{name}-generation"));
        status.conditions = vec![HostCondition {
            condition_type: "test".to_string(),
            value: ConditionValue::False,
            reason: reason.to_string(),
            message: message.to_string(),
            blocks_readiness: true,
        }];
        on(policy, name, Ok(Some(plain_host(name))), Some(status))
    };
    let sources = vec![
        degraded("host-direct-feta", "feta", "StoredObjectDecodeFailed", "ConvoyEnsure/quarantined-record failed typed decode"),
        degraded("host-direct-udder", "udder", "RestartBudgetExhausted", "resource controller stopped after repeated failures"),
    ];
    assert_eq!(
        default_convoy_placement_policy(&needs(false, &["codex"]), Some(&sources), &None)
            .expect_err("all placement candidates should be refused"),
        "no placement policy satisfies adapter `codex`; candidates:\n\
- `host-direct-feta`: placement `host-direct-feta` host `feta` generation `feta-generation` is not ready: \
StoredObjectDecodeFailed: ConvoyEnsure/quarantined-record failed typed decode\n\
- `host-direct-udder`: placement `host-direct-udder` host `udder` generation `udder-generation` is not ready: \
RestartBudgetExhausted: resource controller stopped after repeated failures"
    );
}

#[test]
fn default_placement_accepts_a_host_with_an_authorship_collision() {
    let mut status = ready(&["codex"]);
    status.conditions = vec![HostCondition {
        condition_type: "ResourceReplication/AuthorshipCollision".to_string(),
        value: ConditionValue::False,
        reason: "HomeBoundRecordAuthoredAtMultipleRoots".to_string(),
        message: "Convoy/flotilla/standing-collision is authored at multiple roots".to_string(),
        blocks_readiness: false,
    }];
    let sources = vec![on("host-direct-feta", "feta", Ok(Some(plain_host("feta"))), Some(status))];
    let resolution = default_convoy_placement_policy(&needs(false, &["codex"]), Some(&sources), &None)
        .expect("standing authorship collisions must not freeze dispatch placement");
    assert_eq!(sources[resolution.selected.expect("viable placement")].policy.name, "host-direct-feta");
}

#[test]
fn self_targeted_admission_uses_live_local_host_over_stale_self_origin_replica() {
    let gib: u64 = 1024 * 1024 * 1024;
    let sources = vec![
        CapacitySource { name: "local-host-id".to_string(), local: false, floor_bytes: None, free_bytes: None },
        CapacitySource { name: "local-host-id".to_string(), local: true, floor_bytes: Some(20 * gib), free_bytes: Some(100 * gib) },
    ];
    let target = PlacementTargetHost { reference: "local-host-id".to_string(), display_name: "local-host".to_string() };
    assert_eq!(
        check_remote_placement_free_space_floor(Some(&target), &sources, true, &text("local-host-id")),
        CapacityCheck::Measured { host: "local-host".to_string(), free_bytes: 100 * gib, floor_bytes: 20 * gib }
    );
}
