use flotilla_core::materialize::{
    changed_records, choose_checkout, code_member_step, command_provenance, desired_commands, desired_names, ensure_workflow_problem, entry_annotations, ops_member_source,
    operational_changes, reconcile_records, stale_records, verification_step, AnnotationNames, CurrentRecord, DesiredRecord, ListedRecord,
    LocalCheckout, OperationalWork, OpsSource, RecordAction, VerificationState, VerificationStep,
};
use flotilla_core::operations::{CommandEntry, EntrySource};
use flotilla_core::ordered::OrderedMap;

fn texts(items: &[&str]) -> Vec<String> {
    items.iter().map(|item| item.to_string()).collect()
}

fn map(entries: &[(&str, &str)]) -> OrderedMap<String> {
    let mut map = OrderedMap::new();
    for (key, value) in entries {
        map.insert(key.to_string(), value.to_string());
    }
    map
}

fn desired(names: &[&str]) -> OrderedMap<DesiredRecord> {
    let mut records = OrderedMap::new();
    for name in names {
        records.insert(name.to_string(), DesiredRecord { annotations: map(&[("owner", "fleet")]), problem: None });
    }
    records
}

fn current(entries: &[(&str, &[(&str, &str)], bool)]) -> OrderedMap<CurrentRecord> {
    let mut records = OrderedMap::new();
    for (name, annotations, same_spec) in entries {
        records.insert(name.to_string(), CurrentRecord { annotations: map(annotations), same_spec: *same_spec });
    }
    records
}

fn command(repository: &str, name: &str, text: &str) -> CommandEntry {
    CommandEntry {
        repository: repository.to_string(),
        name: name.to_string(),
        command: text.to_string(),
        source: EntrySource { repository: "repo-ops".to_string(), commit: "abc123".to_string(), path: format!("ops/{name}.md") },
    }
}

fn checkout(path: &str, is_main: bool) -> LocalCheckout {
    LocalCheckout { path: path.to_string(), is_main }
}

#[test]
fn entries_carry_where_they_are_from() {
    let names = AnnotationNames {
        materialized_project: "project".to_string(),
        source_repository: "repository".to_string(),
        source_commit: "commit".to_string(),
        source_entry_path: "path".to_string(),
        presents_as: "presents-as".to_string(),
    };
    let source = EntrySource { repository: "repo-ops".to_string(), commit: "abc123".to_string(), path: "ops/a.md".to_string() };
    assert_eq!(
        entry_annotations(&names, "fleet", &source, &Some("Fleet".to_string())),
        map(&[
            ("project", "fleet"),
            ("repository", "repo-ops"),
            ("commit", "abc123"),
            ("path", "ops/a.md"),
            ("presents-as", "Fleet"),
        ])
    );
    assert_eq!(entry_annotations(&names, "fleet", &source, &None).len(), 4);
}

#[test]
fn records_are_created_updated_or_kept() {
    let wanted = desired(&["same", "old", "new"]);
    let there = current(&[("old", &[("owner", "fleet")], false), ("same", &[("owner", "fleet")], true)]);
    let plan = reconcile_records("WorkflowTemplate", "fleet", "owner", &wanted, &there);
    assert_eq!(plan.actions, vec![RecordAction::Create, RecordAction::Update, RecordAction::Keep]);
    assert_eq!(plan.refused, None);
    assert_eq!(
        changed_records("WorkflowTemplate", &wanted, &plan.actions),
        texts(&["WorkflowTemplate/new", "WorkflowTemplate/old"])
    );
}

#[test]
fn the_records_of_others_are_not_taken_over() {
    let wanted = desired(&["x"]);
    let foreign = current(&[("x", &[("owner", "other")], true)]);
    assert_eq!(
        reconcile_records("WorkflowTemplate", "fleet", "owner", &wanted, &foreign).refused,
        Some("WorkflowTemplate `x` is materialized by project `other`".to_string())
    );
    let unowned = current(&[("x", &[], true)]);
    assert_eq!(
        reconcile_records("WorkflowTemplate", "fleet", "owner", &wanted, &unowned).refused,
        Some("WorkflowTemplate `x` already exists and is not materialized by a project".to_string())
    );
}

#[test]
fn records_are_reconciled_by_name_up_to_the_first_that_cannot_be() {
    let mut wanted = desired(&["zebra", "beta"]);
    wanted.insert("alpha".to_string(), DesiredRecord { annotations: map(&[]), problem: None });
    wanted.insert("middle".to_string(), DesiredRecord { annotations: map(&[]), problem: Some("no such workflow".to_string()) });
    let plan = reconcile_records("ConvoyEnsure", "fleet", "owner", &wanted, &OrderedMap::new());
    assert_eq!(plan.actions, vec![RecordAction::Create, RecordAction::Create]);
    assert_eq!(plan.refused, Some("no such workflow".to_string()));
    assert_eq!(desired_names(&wanted), texts(&["alpha", "beta", "middle", "zebra"]));
    assert_eq!(changed_records("ConvoyEnsure", &wanted, &plan.actions), texts(&["ConvoyEnsure/alpha", "ConvoyEnsure/beta"]));
}

#[test]
fn only_own_records_go_stale() {
    let listed = |name: &str, owner: Option<&str>| ListedRecord { name: name.to_string(), owner: owner.map(str::to_string) };
    assert_eq!(
        stale_records(
            &vec![listed("a", Some("fleet")), listed("b", Some("fleet")), listed("c", Some("other")), listed("d", None)],
            "fleet",
            &texts(&["a"])
        ),
        texts(&["b"])
    );
}

#[test]
fn an_ensured_workflow_must_exist_and_stay() {
    assert_eq!(ensure_workflow_problem("ops/a.md", "x", "work", &Ok(false)), None);
    assert_eq!(
        ensure_workflow_problem("ops/a.md", "x", "work", &Ok(true)),
        Some("ops/a.md ensure `x` references workflow template work with an exit declaration".to_string())
    );
    assert_eq!(
        ensure_workflow_problem("ops/a.md", "x", "work", &Err("not found".to_string())),
        Some("ops/a.md ensure `x` references workflow template work: not found".to_string())
    );
}

#[test]
fn command_provenance_is_written_as_json() {
    let commands = vec![command("repo-a", "lint", "make lint"), command("repo-b", "test", "make")];
    assert_eq!(
        command_provenance(&commands, "repo-a"),
        Some("[{\"entryPath\":\"ops/lint.md\",\"sourceCommit\":\"abc123\",\"sourceRepository\":\"repo-ops\"}]".to_string())
    );
    assert_eq!(command_provenance(&commands, "repo-c"), None);
    assert_eq!(desired_commands(&commands, "repo-b"), map(&[("test", "make")]));
}

#[test]
fn foreign_verification_commands_stay() {
    let state = |commands: &[(&str, &str)], owner: Option<&str>, provenance: Option<&str>| VerificationState {
        commands: map(commands),
        owner: owner.map(str::to_string),
        provenance: provenance.map(str::to_string),
    };
    let refusal = |step: VerificationStep| match step {
        VerificationStep::Refuse { message } => message,
        other => panic!("{other:?}"),
    };
    let asked = || map(&[("test", "make")]);
    let provenance = || Some("[]".to_string());
    assert_eq!(
        refusal(verification_step("fleet", "repo-a", &state(&[], Some("other"), None), asked(), provenance())),
        "Repository repo-a verification commands are materialized by project `other`"
    );
    assert_eq!(
        refusal(verification_step("fleet", "repo-a", &state(&[("x", "y")], None, None), asked(), provenance())),
        "Repository repo-a already has verification commands that are not materialized by a project"
    );
    assert!(matches!(
        verification_step("fleet", "repo-a", &state(&[("x", "y")], Some("other"), None), map(&[]), None),
        VerificationStep::Keep
    ));
    match verification_step("fleet", "repo-a", &state(&[], None, None), asked(), provenance()) {
        VerificationStep::Update { state } => {
            assert_eq!(state.commands, asked());
            assert_eq!(state.owner, Some("fleet".to_string()));
            assert_eq!(state.provenance, provenance());
        }
        other => panic!("{other:?}"),
    }
    let held = state(&[("test", "make")], Some("fleet"), Some("[]"));
    assert!(matches!(verification_step("fleet", "repo-a", &held, asked(), provenance()), VerificationStep::Keep));
}

#[test]
fn a_source_checkout_must_be_clear() {
    assert_eq!(choose_checkout(&vec![checkout("/a", false)]), Some(0));
    assert_eq!(choose_checkout(&vec![checkout("/a", false), checkout("/b", true)]), Some(1));
    assert_eq!(choose_checkout(&vec![checkout("/a", true), checkout("/b", true)]), None);
    assert_eq!(ops_member_source("repo-a", &None, "repo-a", &vec![]), OpsSource::Bootstrap);
    assert_eq!(ops_member_source("repo-a", &None, "repo-b", &vec![]), OpsSource::Unavailable);
    assert_eq!(
        ops_member_source("repo-a", &None, "repo-b", &vec![checkout("/a", false)]),
        OpsSource::Checkout { path: "/a".to_string() }
    );
    assert_eq!(
        ops_member_source("repo-a", &Some("ops".to_string()), "repo-b", &vec![checkout("/a", false), checkout("/b", false)]),
        OpsSource::Refused {
            message: "ops member ops has multiple local checkouts; its main checkout cannot be selected unambiguously".to_string()
        }
    );
}

#[test]
fn changes_are_reported_in_order() {
    let work = OperationalWork {
        templates: texts(&["WorkflowTemplate/review"]),
        stale_templates: texts(&["old"]),
        ensures: texts(&["ConvoyEnsure/quartermaster"]),
        stale_ensures: texts(&["gone"]),
        repositories: texts(&["repo-a"]),
    };
    assert_eq!(
        operational_changes(&work),
        texts(&[
            "ConvoyEnsure/quartermaster",
            "Repository/repo-a verification commands",
            "WorkflowTemplate/review",
            "deleted ConvoyEnsure/gone",
            "deleted WorkflowTemplate/old",
        ])
    );
}

#[test]
fn records_that_nobody_asks_for_are_deleted() {
    let listed = vec![
        ListedRecord { name: "kept".to_string(), owner: Some("fleet".to_string()) },
        ListedRecord { name: "gone".to_string(), owner: Some("fleet".to_string()) },
        ListedRecord { name: "foreign".to_string(), owner: Some("other".to_string()) },
    ];
    assert_eq!(stale_records(&listed, "fleet", &desired_names(&desired(&["kept"]))), texts(&["gone"]));
}

#[test]
fn a_repository_that_is_a_member_twice_gets_its_commands_once() {
    let commands = vec![command("repo-a", "test", "make test")];
    let code = texts(&["repo-a", "repo-a"]);
    let empty = VerificationState { commands: OrderedMap::new(), owner: None, provenance: None };
    let state = match code_member_step("fleet", &code, 0, &empty, &commands) {
        VerificationStep::Update { state } => state,
        other => panic!("{other:?}"),
    };
    assert_eq!(state.commands.get("test"), Some(&"make test".to_string()));
    assert_eq!(state.owner, Some("fleet".to_string()));
    match code_member_step("fleet", &code, 1, &state, &commands) {
        VerificationStep::Update { state } => {
            assert_eq!(state.commands.len(), 0);
            assert_eq!(state.owner, None);
        }
        other => panic!("{other:?}"),
    }
}
