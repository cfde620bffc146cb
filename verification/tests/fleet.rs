use flotilla_core::fleet::{
    append_crewless_convoy_rows, convoy_addresses, convoy_authorities, convoy_state_label, crew_attention, crew_row_of, crew_work_unsettled,
    display_address_str, host_name_for_canonical_ref, local_fleet_rows, replica_staleness, resource_environment_host_ref,
    session_status_label, unsettled_crew_work, CheckoutAuthority, ConvoyDecision, ConvoyRow, ConvoyWork, CrewPhase, CrewWork,
    EnvironmentHost, FleetContext, FleetListRow, FleetReplicaCacheEntry, FleetStaleness,
};
use flotilla_core::model::{
    AttentionState, CrewAttention, CrewLabels, CrewWorkPhase, PlacementDecision, PlacementTargetHost, SessionPhase, SessionSource,
    SessionStatus, TerminalAttention, TerminalSession,
};
use flotilla_core::ordered::OrderedMap;
use flotilla_core::time::Timestamp;
use std::sync::Arc;

fn text(value: &str) -> Option<String> {
    Some(value.to_string())
}

fn noon() -> Timestamp {
    Timestamp::at(1786795200, 0).expect("an instant")
}

fn running(state: AttentionState) -> SessionStatus {
    SessionStatus {
        phase: SessionPhase::Running,
        attention: Some(TerminalAttention { state, stale: false }),
        degraded_reason: None,
        crew: None,
        completion_pending: None,
        delivered_message_id: None,
    }
}

fn session(name: &str, convoy: Option<&str>) -> TerminalSession {
    TerminalSession {
        name: name.to_string(),
        namespace: "flotilla".to_string(),
        labels: CrewLabels { convoy: convoy.map(str::to_string), vessel: text("work"), role: text("coder"), vessel_ref: None },
        role: "worker".to_string(),
        env_ref: "env-1".to_string(),
        source: SessionSource::Tool,
        status: Some(running(AttentionState::Idle)),
    }
}

fn convoy(record_name: &str, message: Option<&str>) -> ConvoyRow {
    ConvoyRow {
        namespace: "flotilla".to_string(),
        record_name: record_name.to_string(),
        name: "governor".to_string(),
        project_ref: text("fleet"),
        phase: "Active".to_string(),
        message: message.map(str::to_string),
        placement_decision: None,
    }
}

fn context() -> FleetContext {
    FleetContext {
        host_name: "kiwi".to_string(),
        convoy_addresses: OrderedMap::new(),
        unsettled: vec![],
        authorities: OrderedMap::new(),
        environments: OrderedMap::new(),
        local_host_id: text("host-1"),
        decisions: vec![],
    }
}

#[test]
fn crew_attention_keeps_monitoring_distinct_from_lifecycle_state() {
    let mut status = running(AttentionState::Idle);

    assert_eq!(crew_attention(&Some(status), true), Some(CrewAttention::Stalled));
    status = running(AttentionState::Idle);
    assert_eq!(crew_attention(&Some(status), false), Some(CrewAttention::Idle));

    status = running(AttentionState::Idle);
    status.degraded_reason = text("DeliveryUnconfirmed");
    assert_eq!(crew_attention(&Some(status), true), Some(CrewAttention::DeliveryUnconfirmed));

    status = running(AttentionState::Idle);
    status.attention = Some(TerminalAttention { state: AttentionState::Idle, stale: true });
    assert_eq!(crew_attention(&Some(status), true), Some(CrewAttention::Unobservable));

    status = running(AttentionState::Idle);
    status.attention = Some(TerminalAttention { state: AttentionState::Idle, stale: true });
    status.phase = SessionPhase::Stopped;
    assert_eq!(crew_attention(&Some(status), true), None);
}

#[test]
fn observed_attention_is_passed_on() {
    assert_eq!(crew_attention(&Some(running(AttentionState::Working)), true), Some(CrewAttention::Working));
    assert_eq!(crew_attention(&Some(running(AttentionState::NeedsInput)), false), Some(CrewAttention::NeedsInput));
    assert_eq!(crew_attention(&Some(running(AttentionState::Unobservable)), true), Some(CrewAttention::Unobservable));
    assert_eq!(crew_attention(&None, true), None);
}

#[test]
fn handed_back_crew_is_settled_for_its_own_attention() {
    assert!(crew_work_unsettled(CrewWorkPhase::Working));
    assert!(!crew_work_unsettled(CrewWorkPhase::Done));
    assert!(!crew_work_unsettled(CrewWorkPhase::HandedBack));
    assert!(!crew_work_unsettled(CrewWorkPhase::Failed));
}

#[test]
fn labels_say_what_state_things_are_in() {
    assert_eq!(session_status_label(None), "starting");
    assert_eq!(session_status_label(Some(SessionPhase::Running)), "running");
    assert_eq!(session_status_label(Some(SessionPhase::Stopped)), "stopped");
    assert_eq!(session_status_label(Some(SessionPhase::Failed)), "failed");
    assert_eq!(convoy_state_label(&convoy("one", Some("waiting"))), "Active: waiting");
    assert_eq!(convoy_state_label(&convoy("one", Some("  "))), "Active");
    assert_eq!(display_address_str("governor", &text("fleet")), "governor @ fleet");
    assert_eq!(display_address_str("governor", &None), "governor");
}

#[test]
fn convoys_without_crew_get_a_row_of_their_own() {
    let mut rows = vec![crew_row_of(&session("s", Some("one")), &context())];
    append_crewless_convoy_rows(
        &mut rows,
        "flotilla",
        &vec![convoy("one", None), convoy("two", Some("waiting")), convoy("two", None)],
        "kiwi",
        &FleetStaleness::Local,
    );
    assert_eq!(rows.len(), 2);
    assert_eq!(
        rows[1],
        FleetListRow {
            convoy: "governor @ fleet".to_string(),
            convoy_ref: text("two"),
            vessel: "-".to_string(),
            authority: None,
            crew: "-".to_string(),
            crew_state: "Active: waiting".to_string(),
            attention: None,
            host: "kiwi".to_string(),
            placement_decision: None,
            namespace: "flotilla".to_string(),
            session: None,
            staleness: FleetStaleness::Local,
        }
    );
}

#[test]
fn a_crew_row_gathers_what_is_known_of_its_convoy() {
    let mut cx = context();
    let target = PlacementTargetHost { reference: "host-1".to_string(), display_name: "kiwi".to_string() };
    cx.convoy_addresses = convoy_addresses(&vec![ConvoyWork {
        name: "one".to_string(),
        role: "governor".to_string(),
        project_ref: text("fleet"),
        crew_work: vec![],
    }]);
    cx.authorities.insert("one".to_string(), "adopted".to_string());
    cx.environments.insert("env-1".to_string(), EnvironmentHost { host_ref: text("alias"), target: Some(target.copy()) });
    cx.unsettled = vec![CrewWork { convoy: "one".to_string(), vessel: "work".to_string(), role: "coder".to_string(), unsettled: false }];
    let decision = Arc::new(PlacementDecision {
        policy_name: "local".to_string(),
        target_host: target,
        refused_candidates: vec![],
        viable_not_selected: vec![],
    });
    cx.decisions = vec![ConvoyDecision { namespace: "flotilla".to_string(), convoy: "one".to_string(), decision: decision.clone() }];
    let row = crew_row_of(&session("s", Some("one")), &cx);
    assert_eq!(row.convoy, "governor @ fleet");
    assert_eq!(row.convoy_ref, text("one"));
    assert_eq!(row.vessel, "env-1");
    assert_eq!(row.crew, "work/coder");
    assert_eq!(row.crew_state, "running");
    assert_eq!(row.attention, Some(CrewAttention::Idle));
    assert_eq!(row.authority, text("adopted"));
    assert_eq!(row.host, "kiwi");
    assert_eq!(row.placement_decision, Some(decision));
    assert_eq!(row.session, text("s"));
}

#[test]
fn crew_work_that_is_not_reported_counts_as_unsettled() {
    let row = crew_row_of(&session("s", Some("one")), &context());
    assert_eq!(row.attention, Some(CrewAttention::Stalled));
    assert_eq!(row.host, "kiwi");
}

#[test]
fn local_rows_come_in_list_order() {
    let rows = local_fleet_rows(
        &vec![session("b", Some("z-convoy")), session("a", Some("a-convoy"))],
        &vec![convoy("two", None)],
        "flotilla",
        &context(),
    );
    let names: Vec<&str> = rows.iter().map(|row| row.convoy.as_str()).collect();
    assert_eq!(names, vec!["a-convoy", "governor @ fleet", "z-convoy"]);
}

#[test]
fn the_work_of_a_convoy_is_settled_phase_by_phase() {
    let work = unsettled_crew_work(&vec![ConvoyWork {
        name: "one".to_string(),
        role: "governor".to_string(),
        project_ref: None,
        crew_work: vec![
            CrewPhase { vessel: "work".to_string(), role: "coder".to_string(), phase: CrewWorkPhase::Pending },
            CrewPhase { vessel: "work".to_string(), role: "pilot".to_string(), phase: CrewWorkPhase::Done },
        ],
    }]);
    assert_eq!(work.len(), 2);
    assert!(work[0].unsettled && work[0].role == "coder");
    assert!(!work[1].unsettled && work[1].role == "pilot");
}

#[test]
fn the_last_checkout_of_a_convoy_says_its_authority() {
    let checkout = |convoy: Option<&str>, authority: Result<Option<&str>, &str>| CheckoutAuthority {
        convoy: convoy.map(str::to_string),
        authority: match authority {
            Ok(value) => Ok(value.map(str::to_string)),
            Err(e) => Err(e.to_string()),
        },
    };
    let authorities = convoy_authorities(&vec![
        checkout(Some("one"), Ok(Some("managed"))),
        checkout(Some("one"), Ok(Some("adopted"))),
        checkout(Some("two"), Ok(None)),
        checkout(None, Err("never read")),
    ])
    .expect("authorities");
    assert_eq!(authorities.get("one"), Some(&"adopted".to_string()));
    assert_eq!(authorities.get("two"), None);
    assert_eq!(convoy_authorities(&vec![checkout(Some("one"), Err("bad"))]), Err("bad".to_string()));
}

#[test]
fn environments_name_their_host() {
    assert_eq!(resource_environment_host_ref(&text("direct"), &text("docker")), text("direct"));
    assert_eq!(resource_environment_host_ref(&None, &text("docker")), text("docker"));
    assert_eq!(host_name_for_canonical_ref("host-1", &text("host-1"), "kiwi"), "kiwi");
    assert_eq!(host_name_for_canonical_ref("host-2", &text("host-1"), "kiwi"), "host-2");
}

#[test]
fn a_replica_grows_stale_with_age() {
    let entry = |last_sync: Option<Timestamp>, last_error: Option<&str>| FleetReplicaCacheEntry {
        rows: vec![],
        result_sets: vec![],
        last_sync,
        generation: None,
        skipped_records: 0,
        first_parse_error: None,
        last_error: last_error.map(str::to_string),
    };
    assert_eq!(
        replica_staleness(&entry(None, None), &noon()),
        FleetStaleness::Unreachable { last_sync: None, message: "replica has never synced".to_string() }
    );
    assert_eq!(
        replica_staleness(&entry(Some(noon()), Some("refused")), &noon()),
        FleetStaleness::Unreachable { last_sync: Some(noon()), message: "refused".to_string() }
    );
    let fresh = noon().plus_secs(90).expect("an instant");
    assert_eq!(replica_staleness(&entry(Some(noon()), None), &fresh), FleetStaleness::Fresh { last_sync: noon() });
    let stale = noon().plus_secs(91).expect("an instant");
    assert_eq!(replica_staleness(&entry(Some(noon()), None), &stale), FleetStaleness::Stale { last_sync: noon() });
}
