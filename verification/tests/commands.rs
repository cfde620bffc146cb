use flotilla_core::commands::{
    check_template, check_work_is_completable, command_context, command_mode, command_namespace, delete_step, deleted_value, misrouted_query, plan_step,
    project_apply_step, template_apply_step, value_or_error, ApplyStep, Command, CommandAction, CommandEvent, CommandLedger, CommandMode,
    CommandValue, DeleteStep, PlanStep, RecordReading, RefreshRun, ResourceJson, TemplateReading, WorkPhase,
};
use flotilla_core::repos::{RepoIdentity, RepoRegistry, RepoSelector};
use flotilla_core::resources::Json;
use flotilla_core::whole_repository::IdentityChange;

fn text(value: &str) -> Option<String> {
    Some(value.to_string())
}

fn identity(path: &str) -> RepoIdentity {
    RepoIdentity { authority: "github.com".to_string(), path: path.to_string() }
}

fn command(action: CommandAction, node_id: Option<&str>) -> Command {
    Command { node_id: node_id.map(str::to_string), description: "do it".to_string(), context_repo: None, action }
}

fn registry() -> RepoRegistry {
    let mut registry = RepoRegistry::new();
    registry.track("/work/app", &identity("acme/app"), &None);
    registry
}

#[test]
fn queries_do_not_run_as_commands() {
    assert_eq!(command_mode(&CommandAction::Query), CommandMode::Misrouted);
    assert_eq!(
        misrouted_query(),
        CommandValue::Error { message: "query commands should use execute_query, not execute".to_string() }
    );
    assert_eq!(command_mode(&CommandAction::InContext), CommandMode::Running);
}

#[test]
fn commands_are_let_in_where_they_run() {
    let mut ledger = CommandLedger::new();
    let first = ledger.let_in(&command(CommandAction::Unplaced, None), "node-1", false).expect("an id");
    let second = ledger.let_in(&command(CommandAction::Unplaced, Some("node-1")), "node-1", false).expect("an id");
    assert_ne!(first, second);
    assert_eq!(
        ledger.let_in(&command(CommandAction::Unplaced, Some("node-2")), "node-1", false),
        Err("remote command routing not implemented yet for node node-2".to_string())
    );
    assert!(ledger.let_in(&command(CommandAction::Unplaced, Some("node-2")), "node-1", true).is_ok());
}

#[test]
fn a_running_command_can_be_cancelled_until_it_ends() {
    let mut ledger = CommandLedger::new();
    let mut asked = command(CommandAction::InContext, None);
    asked.context_repo = Some(RepoSelector::Path { path: "/work/app".to_string() });
    let id = ledger.let_in(&asked, "node-1", false).expect("an id");
    let context = command_context(id, &asked, "node-1", &registry(), &vec![], &identity("x")).expect("a context");
    assert_eq!(context.repo, text("/work/app"));
    assert_eq!(ledger.cancel(id), Err("no matching active command".to_string()));
    match ledger.start(&context) {
        CommandEvent::Started { id: started, identity: about, description, .. } => {
            assert_eq!(started, id);
            assert_eq!(about, identity("acme/app"));
            assert_eq!(description, "do it");
        }
        other => panic!("{other:?}"),
    }
    assert_eq!(ledger.cancel(id), Ok(()));
    match ledger.finish(&context, &registry(), CommandValue::Done) {
        CommandEvent::Finished { id: finished, result, .. } => assert_eq!((finished, result), (id, CommandValue::Done)),
        other => panic!("{other:?}"),
    }
    assert_eq!(ledger.cancel(id), Err("no matching active command".to_string()));
}

#[test]
fn commands_say_what_they_are_about() {
    let paths = vec!["/work/app".to_string()];
    let about = |action: CommandAction| command_context(1, &command(action, None), "node-1", &registry(), &paths, &identity("detected"));
    let watch = about(CommandAction::ResourceWatch { namespace: "flotilla".to_string(), kind: "Convoy".to_string() }).expect("a context");
    assert_eq!(watch.description, "watch resource flotilla/Convoy");
    assert_eq!(watch.repo, None);
    assert_eq!(about(CommandAction::Refresh { repo: None }).expect("a context").identity, identity("acme/app"));
    assert_eq!(
        about(CommandAction::UntrackRepo { repo: RepoSelector::Query { resolved: Ok("/gone".to_string()) } }).err(),
        text("repo not found: /gone")
    );
    assert_eq!(
        about(CommandAction::TrackRepoPath { path: "/work/new".to_string() }).expect("a context").identity,
        identity("detected")
    );
    assert_eq!(about(CommandAction::InContext).err(), text("command requires repo context"));
    assert_eq!(
        about(CommandAction::Checkout { repo: RepoSelector::Path { path: "/x".to_string() } }).err(),
        text("repo not tracked: /x")
    );
    assert_eq!(about(CommandAction::RemoveCheckout { resolved: Err("checkout not found".to_string()) }).err(), text("checkout not found"));
    assert_eq!(about(CommandAction::Unplaced).err(), text("command does not resolve to a single repo"));
    assert_eq!(command_namespace(&CommandAction::ConvoyDelete { namespace: text("acme"), name: "x".to_string() }, "flotilla"), "acme");
    assert_eq!(command_namespace(&CommandAction::ConvoyDelete { namespace: None, name: "x".to_string() }, "flotilla"), "flotilla");
}

#[test]
fn replicas_are_deleted_at_their_origin() {
    assert_eq!(delete_step(&None, true), DeleteStep::Delete);
    assert_eq!(delete_step(&text("root"), false), DeleteStep::CollectReplica { origin: "root".to_string() });
    assert_eq!(
        delete_step(&text("root"), true),
        DeleteStep::Refuse { reason: "replica origin root is connected; delete the authoritative resource instead".to_string() }
    );
    let object = || ResourceJson {
        kind: "Convoy".to_string(),
        plural: "convoys".to_string(),
        namespace: "flotilla".to_string(),
        value: Json::Null,
        replica_origin: None,
    };
    assert!(matches!(deleted_value(object(), false), CommandValue::ResourceDeleted { .. }));
    assert!(matches!(deleted_value(object(), true), CommandValue::ResourceAlreadyDeleted { .. }));
    assert_eq!(value_or_error(Err("no".to_string())), CommandValue::Error { message: "no".to_string() });
    assert_eq!(value_or_error(Ok(CommandValue::Done)), CommandValue::Done);
}

#[test]
fn a_refresh_goes_through_every_path() {
    let change = || IdentityChange { previous_display: "a".to_string(), current_display: "b".to_string() };
    let mut run = RefreshRun::new(vec!["/a".to_string(), "/b".to_string()]);
    assert_eq!(run.next_path(), text("/a"));
    run.note(Ok(Some(change())));
    assert_eq!(run.next_path(), text("/b"));
    run.note(Ok(None));
    assert_eq!(run.next_path(), None);
    assert_eq!(
        run.outcome(),
        CommandValue::Refreshed { repos: vec!["/a".to_string(), "/b".to_string()], identity_changes: vec![change()] }
    );
    let mut failing = RefreshRun::new(vec!["/a".to_string(), "/b".to_string()]);
    failing.note(Err("gone".to_string()));
    assert_eq!(failing.next_path(), None);
    assert_eq!(failing.outcome(), CommandValue::Error { message: "gone".to_string() });
}

#[test]
fn only_open_work_can_be_completed() {
    assert_eq!(check_work_is_completable("c", "w", &Some(Some(WorkPhase::Running))), Ok(()));
    assert_eq!(check_work_is_completable("c", "w", &Some(Some(WorkPhase::Complete))), Ok(()));
    assert_eq!(check_work_is_completable("c", "w", &None), Err("convoy c has no status".to_string()));
    assert_eq!(check_work_is_completable("c", "w", &Some(None)), Err("convoy c does not contain work w".to_string()));
    assert_eq!(
        check_work_is_completable("c", "w", &Some(Some(WorkPhase::Cancelled))),
        Err("convoy c work w is already terminal".to_string())
    );
}

#[test]
fn records_are_applied_or_refused() {
    let fails = |message: &str| ApplyStep::Fail { message: message.to_string() };
    assert_eq!(template_apply_step(&Ok(()), &RecordReading::Absent), ApplyStep::Create);
    assert_eq!(template_apply_step(&Ok(()), &RecordReading::Present), ApplyStep::Update);
    assert_eq!(template_apply_step(&Err("bad yaml".to_string()), &RecordReading::Absent), fails("bad yaml"));
    assert_eq!(project_apply_step("fleet", &Ok(()), &Ok(()), &RecordReading::Present), ApplyStep::Update);
    assert_eq!(project_apply_step("fleet", &Ok(()), &Err("bad name".to_string()), &RecordReading::Absent), fails("bad name"));
    assert_eq!(
        project_apply_step("fleet", &Ok(()), &Ok(()), &RecordReading::Declared),
        fails("project fleet is managed by a declaration; use project refresh to update it")
    );
    assert_eq!(
        project_apply_step("fleet", &Ok(()), &Ok(()), &RecordReading::Unreadable { error: "down".to_string() }),
        fails("down")
    );
}

#[test]
fn a_forbidden_command_takes_no_step() {
    assert_eq!(
        plan_step(text("forbidden"), Ok(())),
        PlanStep::Finish { value: CommandValue::Error { message: "forbidden".to_string() } }
    );
    assert_eq!(plan_step(None, Err(CommandValue::Done)), PlanStep::Finish { value: CommandValue::Done });
    assert_eq!(plan_step(None, Ok(())), PlanStep::RunSteps);
}

#[test]
fn a_template_must_be_sound() {
    assert_eq!(check_template(&TemplateReading::Read { problems: vec![] }), Ok(()));
    assert_eq!(
        check_template(&TemplateReading::Read { problems: vec!["no vessels".to_string(), "no crew".to_string()] }),
        Err("workflow template validation failed: no vessels; no crew".to_string())
    );
    assert_eq!(
        check_template(&TemplateReading::Unreadable { error: "line 1".to_string() }),
        Err("invalid workflow template YAML: line 1".to_string())
    );
}

#[test]
fn only_a_path_to_track_ends_under_another_identity() {
    let mut ledger = CommandLedger::new();
    let mut ended = |action: CommandAction| {
        let asked = command(action, None);
        let (context, _) = ledger.accept(&asked, "node-1", false, &registry(), &vec![], &identity("acme/detected")).expect("a command");
        let mut later = RepoRegistry::new();
        later.track("/work/app", &identity("acme/renamed"), &None);
        match ledger.finish(&context, &later, CommandValue::Done) {
            CommandEvent::Finished { identity, result, .. } => (identity, result),
            other => panic!("{other:?}"),
        }
    };
    let at = |path: &str| CommandAction::TrackRepoPath { path: path.to_string() };
    assert_eq!(ended(at("/work/app")), (identity("acme/renamed"), CommandValue::Done));
    assert_eq!(ended(at("/work/gone")), (identity("acme/detected"), CommandValue::Done));
    let refresh = CommandAction::Refresh { repo: Some(RepoSelector::Path { path: "/work/app".to_string() }) };
    assert_eq!(ended(refresh), (identity("acme/app"), CommandValue::Done));
    let question = CommandAction::QueryExplainConvoy { namespace: None, name: "x".to_string() };
    assert_eq!(ended(question).1, misrouted_query());
}

#[test]
fn nobody_hears_of_a_command_about_nothing_known() {
    let mut ledger = CommandLedger::new();
    let mut asked = command(CommandAction::InContext, None);
    asked.context_repo = Some(RepoSelector::Path { path: "/work/other".to_string() });
    assert!(ledger.accept(&asked, "node-1", false, &registry(), &vec![], &identity("x")).is_err());
    asked.context_repo = Some(RepoSelector::Path { path: "/work/app".to_string() });
    let (context, event) = ledger.accept(&asked, "node-1", false, &registry(), &vec![], &identity("x")).expect("a command");
    assert_eq!(context.id, 2);
    assert_eq!(context.repo, text("/work/app"));
    assert!(matches!(event, CommandEvent::Started { id: 2, .. }));
    assert_eq!(ledger.cancel(2), Ok(()));
    assert_eq!(ledger.cancel(1), Err("no matching active command".to_string()));
}
