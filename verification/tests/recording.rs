use flotilla_core::creation::{ConvoyLabelNames, SnapshotReading};
use flotilla_core::ensure_start::SnapshotNames;
use flotilla_core::model::{PlacementDecision, PlacementTargetHost};
use flotilla_core::ordered::OrderedMap;
use flotilla_core::recording::{
    create_convoy_with_annotations, create_convoy_with_workflow_snapshot, prepare_snapshot, DispatchRegard, NewConvoy, RecordReadings,
    RecordStep, SnapshotNeed, SnapshotReadings,
};
use std::sync::Arc;

fn text(value: &str) -> Option<String> {
    Some(value.to_string())
}

fn decision() -> Arc<PlacementDecision> {
    Arc::new(PlacementDecision {
        policy_name: "local".to_string(),
        target_host: PlacementTargetHost { reference: "host-1".to_string(), display_name: "kiwi".to_string() },
        refused_candidates: vec![],
        viable_not_selected: vec![],
    })
}

fn convoy(regard: DispatchRegard) -> NewConvoy {
    NewConvoy {
        role: "governor".to_string(),
        project_ref: text("fleet"),
        generation: 3,
        dispatching_principal: text("operator"),
        placed: true,
        placement_decision: Some(decision()),
        regard,
    }
}

fn labels() -> ConvoyLabelNames {
    ConvoyLabelNames { project: "project".to_string(), role: "role".to_string(), generation: "generation".to_string() }
}

fn names() -> SnapshotNames {
    SnapshotNames { workflow: "workflow-snapshot".to_string(), placement: "placement-snapshot".to_string() }
}

fn unread() -> SnapshotReadings {
    SnapshotReadings { content: None, existing: None, created: None }
}

fn there(digest: &str) -> SnapshotReadings {
    SnapshotReadings { content: Some(Ok(digest.to_string())), existing: Some(SnapshotReading::Same), created: None }
}

fn nothing_done() -> RecordReadings {
    RecordReadings { created: None, decided: None, regarded: None }
}

fn down() -> Result<(), String> {
    Err("down".to_string())
}

#[test]
fn a_snapshot_is_created_where_none_stands_under_its_name() {
    let mut rd = unread();
    assert_eq!(prepare_snapshot("workflow", &rd), Err(SnapshotNeed::Digest));
    rd.content = Some(Ok("abc".to_string()));
    assert_eq!(prepare_snapshot("workflow", &rd), Err(SnapshotNeed::Look { name: "workflow-snapshot-abc".to_string() }));
    rd.existing = Some(SnapshotReading::Absent);
    assert_eq!(prepare_snapshot("workflow", &rd), Err(SnapshotNeed::Create { name: "workflow-snapshot-abc".to_string() }));
    rd.created = Some(Ok(()));
    assert_eq!(prepare_snapshot("workflow", &rd), Ok("workflow-snapshot-abc".to_string()));
    rd.created = Some(down());
    assert_eq!(prepare_snapshot("workflow", &rd), Err(SnapshotNeed::Fail { message: "down".to_string() }));
}

#[test]
fn a_snapshot_that_holds_something_else_is_refused() {
    let mut rd = there("abc");
    assert_eq!(prepare_snapshot("placement", &rd), Ok("placement-snapshot-abc".to_string()));
    rd.existing = Some(SnapshotReading::Different);
    assert_eq!(
        prepare_snapshot("placement", &rd),
        Err(SnapshotNeed::Fail {
            message: "prepared placement snapshot placement-snapshot-abc already exists with different contents".to_string()
        })
    );
    rd.existing = Some(SnapshotReading::Unreadable { error: "down".to_string() });
    assert_eq!(prepare_snapshot("placement", &rd), Err(SnapshotNeed::Fail { message: "down".to_string() }));
    rd.content = Some(Err("no digest".to_string()));
    assert_eq!(prepare_snapshot("placement", &rd), Err(SnapshotNeed::Fail { message: "no digest".to_string() }));
}

#[test]
fn a_convoy_is_recorded_once_its_snapshots_are_there() {
    let new = convoy(DispatchRegard::Emit);
    let step = |workflow: &SnapshotReadings, placement: &SnapshotReadings, rd: &RecordReadings| {
        create_convoy_with_workflow_snapshot(&new, &labels(), &names(), workflow, placement, rd)
    };
    assert!(matches!(step(&unread(), &unread(), &nothing_done()), RecordStep::SnapshotWorkflow { need: SnapshotNeed::Digest }));
    assert!(matches!(step(&there("abc"), &unread(), &nothing_done()), RecordStep::SnapshotPlacement { need: SnapshotNeed::Digest }));
    match step(&there("abc"), &there("def"), &nothing_done()) {
        RecordStep::Create { labels, annotations } => {
            assert_eq!(labels.get("project"), Some(&"fleet".to_string()));
            assert_eq!(labels.get("role"), Some(&"governor".to_string()));
            assert_eq!(labels.get("generation"), Some(&"3".to_string()));
            assert_eq!(annotations.get("workflow-snapshot"), Some(&"workflow-snapshot-abc".to_string()));
            assert_eq!(annotations.get("placement-snapshot"), Some(&"placement-snapshot-def".to_string()));
        }
        other => panic!("{other:?}"),
    }
    let mut rd = nothing_done();
    rd.created = Some(down());
    assert!(matches!(step(&there("abc"), &there("def"), &rd), RecordStep::Fail { message } if message == "down"));
}

#[test]
fn a_convoy_without_a_placement_has_no_snapshot_of_one() {
    let mut new = convoy(DispatchRegard::Suppress);
    new.placed = false;
    new.placement_decision = None;
    let mut rd = nothing_done();
    match create_convoy_with_workflow_snapshot(&new, &labels(), &names(), &there("abc"), &unread(), &rd) {
        RecordStep::Create { annotations, .. } => {
            assert_eq!(annotations.len(), 1);
            assert_eq!(annotations.get("workflow-snapshot"), Some(&"workflow-snapshot-abc".to_string()));
        }
        other => panic!("{other:?}"),
    }
    rd.created = Some(Ok(()));
    assert!(matches!(
        create_convoy_with_workflow_snapshot(&new, &labels(), &names(), &there("abc"), &unread(), &rd),
        RecordStep::Recorded
    ));
}

#[test]
fn a_recorded_convoy_gets_its_placement_and_its_regard() {
    let new = convoy(DispatchRegard::Emit);
    let step = |rd: &RecordReadings| {
        let mut annotations = OrderedMap::new();
        annotations.insert("key".to_string(), "value".to_string());
        create_convoy_with_annotations(&new, annotations, &labels(), rd)
    };
    let mut rd = nothing_done();
    assert!(matches!(step(&rd), RecordStep::Create { annotations, .. } if annotations.get("key") == Some(&"value".to_string())));
    rd.created = Some(Ok(()));
    assert!(matches!(step(&rd), RecordStep::SetDecision { decision } if decision.policy_name == "local"));
    rd.decided = Some(down());
    assert!(matches!(step(&rd), RecordStep::Fail { message } if message == "down"));
    rd.decided = Some(Ok(()));
    assert!(matches!(step(&rd), RecordStep::EmitRegard { principal } if principal == text("operator")));
    rd.regarded = Some(down());
    assert!(matches!(step(&rd), RecordStep::Recorded));
}

#[test]
fn a_suppressed_regard_is_never_emitted() {
    let rd = RecordReadings { created: Some(Ok(())), decided: Some(Ok(())), regarded: None };
    let step = create_convoy_with_annotations(&convoy(DispatchRegard::Suppress), OrderedMap::new(), &labels(), &rd);
    assert!(matches!(step, RecordStep::Recorded));
}
