use flotilla_core::fleet::{FleetListRow, FleetReplicaCacheEntry, FleetStaleness};
use flotilla_core::health::{
    accumulate_fleet_health_counts, dispatch_queue, fleet_health, fleet_observation_agreement, host_credential_attention, host_seats,
    reporting_host, AttentionSeverity, CredentialAttention, CredentialReading, DispatchQueueRow, FleetHealthInput, HostCondition,
    HostListEntry, HostReport, HostSeat, HostStaleness, HostStatus, ObservationAgreement, ProjectQueue, QueueEntry, QueuedProject,
};
use flotilla_core::model::{ConditionValue, ConnectionState, Provenance};
use flotilla_core::ordered::OrderedMap;
use flotilla_core::time::Timestamp;

fn text(value: &str) -> Option<String> {
    Some(value.to_string())
}

fn noon() -> Timestamp {
    Timestamp::at(1786795200, 0).expect("an instant")
}

fn before_noon(secs: i64) -> Timestamp {
    Timestamp::at(1786795200 - secs, 0).expect("an instant")
}

fn status(heartbeat_at: Option<Timestamp>, generation: &str) -> HostStatus {
    HostStatus {
        heartbeat_at,
        ready: true,
        daemon_generation: text(generation),
        daemon_version: text("1.0"),
        daemon_started_at: Some(before_noon(3600)),
        disk_free_bytes: Some(10),
        admission_free_space_floor_bytes: None,
        sleep_inhibition: None,
        conditions: vec![],
        credentials: Some(vec![]),
    }
}

fn row(convoy: &str, crew: &str, host: &str) -> FleetListRow {
    FleetListRow {
        convoy: convoy.to_string(),
        convoy_ref: None,
        vessel: "-".to_string(),
        authority: None,
        crew: crew.to_string(),
        crew_state: "running".to_string(),
        attention: None,
        host: host.to_string(),
        placement_decision: None,
        namespace: "flotilla".to_string(),
        session: None,
        staleness: FleetStaleness::Local,
    }
}

fn entry(host_name: &str, is_local: bool, configured: bool, connection: ConnectionState) -> HostListEntry {
    HostListEntry { host_name: host_name.to_string(), is_local, configured, connection }
}

#[test]
fn expiring_credentials_call_for_attention() {
    let reading = |scope: &str, ambient_login: Option<&str>, expired_at: Option<Timestamp>, expires_at: Option<Timestamp>| CredentialReading {
        scope: scope.to_string(),
        ambient_login: ambient_login.map(str::to_string),
        expired_at,
        expires_at,
    };
    let mut reported = status(None, "g1");
    reported.credentials = Some(vec![
        reading("github", None, Some(noon()), Some(noon())),
        reading("quiet", None, None, None),
        reading("login", Some("codex"), None, Some(noon())),
    ]);
    assert_eq!(
        host_credential_attention(&reported),
        vec![
            CredentialAttention { severity: AttentionSeverity::Expired, message: "credential `github` expired on 2026-08-15".to_string() },
            CredentialAttention { severity: AttentionSeverity::Expiring, message: "ambient codex login expires on 2026-08-15".to_string() },
        ]
    );
    reported.credentials = None;
    assert_eq!(
        host_credential_attention(&reported),
        vec![CredentialAttention {
            severity: AttentionSeverity::Unreadable,
            message: "credential expiry capability is unreadable".to_string()
        }]
    );
}

#[test]
fn observations_agree_when_link_heartbeat_and_generation_do() {
    let agree = |link: ConnectionState, heartbeat: bool, fresh: bool, daemon: Option<&str>, replica: Option<&str>, local: bool| {
        fleet_observation_agreement(&link, heartbeat, fresh, &daemon.map(str::to_string), &replica.map(str::to_string), local)
    };
    assert_eq!(agree(ConnectionState::Connected, true, true, Some("a"), Some("a"), false), ObservationAgreement::Agree);
    assert_eq!(agree(ConnectionState::Connected, true, true, Some("a"), Some("b"), false), ObservationAgreement::Disagree);
    assert_eq!(agree(ConnectionState::Disconnected, true, true, Some("a"), Some("a"), false), ObservationAgreement::Disagree);
    assert_eq!(agree(ConnectionState::Reconnecting, true, false, Some("a"), Some("a"), false), ObservationAgreement::Unknown);
    assert_eq!(agree(ConnectionState::Connected, true, true, None, Some("a"), false), ObservationAgreement::Unknown);
    assert_eq!(agree(ConnectionState::Disconnected, false, false, None, None, true), ObservationAgreement::Agree);
}

#[test]
fn every_known_host_has_one_seat() {
    let seats = host_seats(
        &vec![entry("feta", false, false, ConnectionState::Disconnected), entry("feta", false, false, ConnectionState::Connected)],
        &vec!["feta".to_string(), "udder".to_string()],
        "kiwi",
    );
    assert_eq!(seats.len(), 3);
    assert_eq!(seats.get("feta"), Some(&HostSeat { is_local: false, configured: true, link: ConnectionState::Connected }));
    assert_eq!(seats.get("udder"), Some(&HostSeat { is_local: false, configured: true, link: ConnectionState::Disconnected }));
    assert_eq!(seats.get("kiwi"), Some(&HostSeat { is_local: true, configured: false, link: ConnectionState::Connected }));
}

#[test]
fn a_report_counts_for_the_host_that_made_it() {
    let report = |name: &str, provenance: Provenance, origin_host_id: Option<&str>, origin_name: Option<&str>| HostReport {
        name: name.to_string(),
        provenance,
        origin_host_id: origin_host_id.map(str::to_string),
        origin_name: origin_name.map(str::to_string),
        origin_configured_name: text("configured"),
        status: None,
    };
    let replica = || Provenance::Replica { origin_root: "root".to_string(), last_synced_at: noon() };
    assert_eq!(reporting_host(&report("host-1", Provenance::Local, None, None), &text("host-1"), "kiwi"), text("kiwi"));
    assert_eq!(reporting_host(&report("host-2", Provenance::Local, None, None), &text("host-1"), "kiwi"), None);
    assert_eq!(reporting_host(&report("host-2", replica(), Some("host-2"), Some("feta")), &text("host-1"), "kiwi"), text("feta"));
    assert_eq!(reporting_host(&report("host-2", replica(), Some("host-2"), None), &text("host-1"), "kiwi"), text("configured"));
    assert_eq!(reporting_host(&report("host-2", replica(), Some("host-3"), Some("feta")), &text("host-1"), "kiwi"), None);
}

#[test]
fn crews_and_convoys_are_counted_per_host() {
    let rows = [row("one", "work/coder", "kiwi"), row("one", "work/pilot", "kiwi"), row("two", "-", "kiwi"), row("three", "x", "feta")];
    assert_eq!(accumulate_fleet_health_counts(&rows.iter().collect(), "kiwi"), (2, 2));
    assert_eq!(accumulate_fleet_health_counts(&rows.iter().collect(), "udder"), (0, 0));
}

#[test]
fn fleet_health_reports_every_host() {
    let mut local = status(Some(before_noon(5)), "g1");
    local.conditions = vec![HostCondition {
        condition_type: "DiskSpace".to_string(),
        value: ConditionValue::False,
        reason: "Low".to_string(),
        message: "almost full".to_string(),
        blocks_readiness: true,
    }];
    let remote = status(Some(before_noon(600)), "g2");
    let report = |name: &str, provenance: Provenance, origin: Option<&str>, status: HostStatus| HostReport {
        name: name.to_string(),
        provenance,
        origin_host_id: origin.map(|_| name.to_string()),
        origin_name: origin.map(str::to_string),
        origin_configured_name: None,
        status: Some(status),
    };
    let mut replicas = OrderedMap::new();
    replicas.insert(
        "feta".to_string(),
        FleetReplicaCacheEntry {
            rows: vec![row("two", "work/coder", "feta")],
            result_sets: vec![],
            last_sync: Some(before_noon(10)),
            generation: text("g2"),
            skipped_records: 0,
            first_parse_error: None,
            last_error: None,
        },
    );
    let rows = fleet_health(
        &FleetHealthInput {
            hosts: vec![entry("feta", false, true, ConnectionState::Connected)],
            configured_hosts: vec!["feta".to_string()],
            host_name: "kiwi".to_string(),
            local_host_id: text("host-1"),
            reports: vec![
                report("host-1", Provenance::Local, None, local),
                report("host-2", Provenance::Replica { origin_root: "root".to_string(), last_synced_at: noon() }, Some("feta"), remote),
            ],
            local_rows: vec![row("one", "work/coder", "kiwi")],
            replicas,
            heartbeat_ttl_secs: 60,
        },
        &noon(),
    );
    assert_eq!(rows.len(), 2);
    assert_eq!(rows[0].host, "kiwi");
    assert!(rows[0].is_local);
    assert_eq!(rows[0].daemon_uptime_seconds, Some(3600));
    assert_eq!(rows[0].staleness, HostStaleness::Current);
    assert_eq!(rows[0].degraded_conditions, vec!["DiskSpace: almost full"]);
    assert_eq!(rows[1].host, "feta");
    assert_eq!((rows[1].crew_count, rows[1].convoy_count), (1, 1));
    assert_eq!(rows[1].staleness, HostStaleness::Stale);
    assert_eq!(rows[1].observation_agreement, ObservationAgreement::Disagree);
    assert_eq!(rows[1].replica_last_sync, Some(before_noon(10)));
}

#[test]
fn the_dispatch_queue_lists_the_oldest_issue_first() {
    let queued = |name: &str, attention: bool, entries: Vec<(&str, Timestamp)>| QueuedProject {
        namespace: "flotilla".to_string(),
        name: name.to_string(),
        queue: Some(ProjectQueue {
            attention,
            entries: entries
                .into_iter()
                .map(|(issue, ready_observed_at)| QueueEntry {
                    issue: issue.to_string(),
                    title: "Title".to_string(),
                    ready_observed_at,
                    provenance: format!("label on {issue}"),
                })
                .collect(),
        }),
    };
    let projects = vec![queued("a", true, vec![("1", before_noon(10)), ("2", before_noon(90))]), queued("b", false, vec![("3", noon())])];
    let rows = dispatch_queue(&projects, &text("a"), &noon());
    assert_eq!(
        rows,
        vec![
            DispatchQueueRow {
                namespace: "flotilla".to_string(),
                project: "a".to_string(),
                issue: "2".to_string(),
                provenance: "label on 2".to_string(),
                title: "Title".to_string(),
                ready_observed_at: before_noon(90),
                age_seconds: 90,
                attention: true,
            },
            DispatchQueueRow {
                namespace: "flotilla".to_string(),
                project: "a".to_string(),
                issue: "1".to_string(),
                provenance: "label on 1".to_string(),
                title: "Title".to_string(),
                ready_observed_at: before_noon(10),
                age_seconds: 10,
                attention: true,
            },
        ]
    );
    assert_eq!(dispatch_queue(&projects, &None, &noon()).len(), 3);
}
