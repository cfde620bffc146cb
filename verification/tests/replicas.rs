use flotilla_core::attach_route::AttachArg;
use flotilla_core::fleet::{ConvoyRow, FleetListRow, FleetReplicaCacheEntry, FleetStaleness};
use flotilla_core::ordered::OrderedMap;
use flotilla_core::replicas::{
    failed_cache_entry, fetched_snapshot_text, fleet_list, fleet_replica_ssh_args, format_resource_replication_failures,
    join_replica_errors, prune_replica_cache, retain_parseable_records, retain_parseable_result_set_records, row_with_staleness,
    snapshot_command, snapshot_login_shell, ssh_destination, synced_cache_entry, FetchReply, FetchedSnapshot, PeerFailures, RemoteHostConfig, ReplicaParseDiagnostics,
    ReplicaSource, ReplicationFailures, ResourceReplicationFailure, ResultSetReading,
};
use flotilla_core::resources::Json;
use flotilla_core::time::Timestamp;

fn text(value: &str) -> Option<String> {
    Some(value.to_string())
}

fn noon() -> Timestamp {
    Timestamp::at(1786795200, 0).expect("an instant")
}

fn failure(kind: &str, message: &str) -> ResourceReplicationFailure {
    ResourceReplicationFailure { kind: kind.to_string(), message: message.to_string() }
}

fn row(convoy: &str, host: &str) -> FleetListRow {
    FleetListRow {
        convoy: convoy.to_string(),
        convoy_ref: text(convoy),
        vessel: "-".to_string(),
        authority: None,
        crew: "-".to_string(),
        crew_state: "running".to_string(),
        attention: None,
        host: host.to_string(),
        placement_decision: None,
        namespace: "flotilla".to_string(),
        session: None,
        staleness: FleetStaleness::Local,
    }
}

fn entry(rows: Vec<FleetListRow>, last_sync: Option<Timestamp>, last_error: Option<&str>) -> FleetReplicaCacheEntry {
    FleetReplicaCacheEntry {
        rows,
        result_sets: vec![],
        last_sync,
        generation: text("g1"),
        skipped_records: 0,
        first_parse_error: None,
        last_error: last_error.map(str::to_string),
    }
}

#[test]
fn replication_failures_are_put_in_one_line() {
    assert_eq!(format_resource_replication_failures(&vec![]), None);
    assert_eq!(
        format_resource_replication_failures(&vec![failure("Convoy", "gone"), failure("Host", "refused")]),
        text("resource replication failed: Convoy: gone; Host: refused")
    );
    assert_eq!(join_replica_errors(Some("a"), Some("b")), text("a; b"));
    assert_eq!(join_replica_errors(None, Some("b")), text("b"));
    assert_eq!(join_replica_errors(None, None), None);
}

#[test]
fn skipped_records_are_counted_and_the_first_error_is_kept() {
    let mut diagnostics = ReplicaParseDiagnostics::new();
    diagnostics.record_skip("rows[0]", "bad");
    diagnostics.record_skips(3, "rows", "worse");
    assert_eq!(diagnostics.skipped_records, 4);
    assert_eq!(diagnostics.first_error, text("rows[0]: bad"));
}

#[test]
fn a_replica_is_fetched_over_ssh() {
    let remote = RemoteHostConfig { hostname: "feta.local".to_string(), user: text("crew") };
    assert_eq!(ssh_destination(&remote), "crew@feta.local");
    assert_eq!(
        fleet_replica_ssh_args(&remote, true, "flotilla snapshot"),
        vec![
            "-T",
            "-o",
            "BatchMode=yes",
            "-o",
            "ConnectTimeout=2",
            "-o",
            "ConnectionAttempts=1",
            "-o",
            "ControlMaster=auto",
            "-o",
            "ControlPath=/tmp/flotilla-ssh-%C",
            "-o",
            "ControlPersist=60",
            "crew@feta.local",
            "flotilla snapshot",
        ]
    );
    let plain = RemoteHostConfig { hostname: "feta.local".to_string(), user: None };
    assert_eq!(ssh_destination(&plain), "feta.local");
    assert_eq!(fleet_replica_ssh_args(&plain, false, "x").len(), 9);
    let literal = |text: &str| AttachArg::Literal(text.to_string());
    let quoted = |text: &str| AttachArg::Quoted(text.to_string());
    assert_eq!(snapshot_login_shell(), vec![literal("${SHELL:-/bin/sh}"), literal("-l"), literal("-c")]);
    assert_eq!(
        snapshot_command(),
        vec![
            literal("cd"),
            quoted("/"),
            literal("&&"),
            literal("exec"),
            literal("flotilla"),
            literal("--json"),
            quoted("replica-snapshot"),
        ]
    );
}

#[test]
fn a_fetch_that_fails_says_why() {
    let finished = |success: bool, stdout: &str, stderr: &str| FetchReply::Finished {
        success,
        stdout: stdout.to_string(),
        stderr: stderr.to_string(),
    };
    assert_eq!(fetched_snapshot_text(&FetchReply::TimedOut), Err("replica snapshot timed out after 2s".to_string()));
    assert_eq!(fetched_snapshot_text(&FetchReply::NotRun("no ssh".to_string())), Err("replica snapshot ssh failed: no ssh".to_string()));
    assert_eq!(fetched_snapshot_text(&finished(true, "{}", "noise")), Ok("{}".to_string()));
    assert_eq!(fetched_snapshot_text(&finished(false, "out", " err\n")), Err("replica snapshot command failed: err".to_string()));
    assert_eq!(fetched_snapshot_text(&finished(false, " out ", "  ")), Err("replica snapshot command failed: out".to_string()));
}

#[test]
fn the_fleet_list_joins_local_and_replicated_rows() {
    let mut cache = OrderedMap::new();
    cache.insert("feta".to_string(), entry(vec![row("a-convoy", "feta")], Some(noon()), None));
    let list = fleet_list(
        vec![row("b-convoy", "kiwi")],
        &vec![
            ReplicaSource { label: "feta".to_string(), host: "feta".to_string() },
            ReplicaSource { label: "udder".to_string(), host: "udder".to_string() },
        ],
        &cache,
        &vec![PeerFailures { host: "feta".to_string(), failures: vec![failure("Convoy", "gone")] }],
        &noon(),
    );
    let names: Vec<&str> = list.rows.iter().map(|row| row.convoy.as_str()).collect();
    assert_eq!(names, vec!["a-convoy", "b-convoy"]);
    assert_eq!(list.rows[0].staleness, FleetStaleness::Fresh { last_sync: noon() });
    assert_eq!(list.replicas.len(), 2);
    assert_eq!(list.replicas[0].message, text("resource replication failed: Convoy: gone"));
    assert!(!list.replicas[1].reachable);
    assert_eq!(list.replicas[1].message, text("replica source 'udder' has not synced yet"));
}

#[test]
fn a_row_can_be_given_another_age() {
    let aged = row_with_staleness(&row("one", "feta"), FleetStaleness::Stale { last_sync: noon() });
    assert_eq!(aged.convoy, "one");
    assert_eq!(aged.staleness, FleetStaleness::Stale { last_sync: noon() });
}

#[test]
fn a_sync_replaces_what_was_held_and_a_failure_keeps_it() {
    let snapshot = FetchedSnapshot {
        host: "feta".to_string(),
        generation: text("g2"),
        rows: vec![row("one", "feta")],
        convoys: vec![ConvoyRow {
            namespace: "flotilla".to_string(),
            record_name: "two".to_string(),
            name: "governor".to_string(),
            project_ref: None,
            phase: "Active".to_string(),
            message: None,
            placement_decision: None,
        }],
        result_sets: vec![Json::Text("independents".to_string())],
        skipped_records: 2,
        first_error: text("rows[0]: bad"),
    };
    let synced = synced_cache_entry(snapshot, "flotilla", &noon());
    assert_eq!(synced.rows.len(), 2);
    assert_eq!(synced.result_sets, vec![Json::Text("independents".to_string())]);
    assert_eq!(synced.last_sync, Some(noon()));
    assert_eq!(synced.generation, text("g2"));
    assert_eq!(synced.skipped_records, 2);
    assert_eq!(synced.last_error, None);
    let failed = failed_cache_entry(Some(synced), "refused");
    assert_eq!(failed.rows.len(), 2);
    assert_eq!(failed.result_sets.len(), 1);
    assert_eq!(failed.last_error, text("refused"));
    assert_eq!(failed_cache_entry(None, "refused").last_sync, None);
}

#[test]
fn recovery_undoes_a_reported_failure() {
    let mut failures = ReplicationFailures::new();
    failures.begin_peer_resource_replication("feta");
    assert_eq!(failures.failures_of_peer("feta"), vec![]);
    failures.report_resource_replication_failure("feta", "Convoy", "gone");
    failures.report_resource_replication_failure("feta", "Convoy", "still gone");
    assert_eq!(failures.failures_of_peer("feta"), vec![failure("Convoy", "still gone")]);
    failures.report_resource_replication_healthy("feta", "Convoy");
    assert_eq!(failures.failures_of_peer("feta"), vec![]);
    assert_eq!(failures.failures_of_peer("udder"), vec![]);
}

#[test]
fn records_that_do_not_parse_are_dropped_and_counted() {
    let mut diagnostics = ReplicaParseDiagnostics::new();
    let kept = retain_parseable_records("rows", &vec![None, text("bad"), None, text("worse")], &mut diagnostics);
    assert_eq!(kept, vec![0, 2]);
    assert_eq!(diagnostics.skipped_records, 2);
    assert_eq!(diagnostics.first_error, text("rows[1]: bad"));
}

#[test]
fn a_result_set_without_rows_is_dropped_where_it_does_not_parse() {
    let mut diagnostics = ReplicaParseDiagnostics::new();
    let reading = ResultSetReading::Rows { error: None, row_errors: vec![text("bad"), None] };
    assert_eq!(retain_parseable_result_set_records(3, &reading, &mut diagnostics), Some(vec![1]));
    assert_eq!(diagnostics.first_error, text("result_sets[3].rows[0]: bad"));
    let broken = ResultSetReading::NoRows { error: text("bad") };
    assert_eq!(retain_parseable_result_set_records(4, &broken, &mut diagnostics), None);
    assert_eq!(diagnostics.skipped_records, 2);
}

#[test]
fn replicas_that_are_no_longer_configured_are_forgotten() {
    let mut cache = OrderedMap::new();
    cache.insert("feta".to_string(), entry(vec![], None, None));
    cache.insert("udder".to_string(), entry(vec![], None, None));
    prune_replica_cache(&mut cache, &vec!["udder".to_string()]);
    assert_eq!(cache.len(), 1);
    assert!(cache.contains_key("udder"));
}
