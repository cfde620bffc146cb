use flotilla_core::materialize::{LocalCheckout, OpsSource};
use flotilla_core::operations::{
    collect_operational_entries, entry_targets, Collected, EnsureEntry, EntryDefinition, OperationalEntry,
    OperationalFile, OperationalSource,
};
use flotilla_core::ordered::OrderedMap;
use flotilla_core::refresh::{gather_operational_entries, GatherStep, OpsReading, RefreshMember};

fn texts(items: &[&str]) -> Vec<String> {
    items.iter().map(|item| item.to_string()).collect()
}

fn aliases() -> OrderedMap<String> {
    let mut map = OrderedMap::new();
    map.insert("app".to_string(), "repo-app".to_string());
    map.insert("docs".to_string(), "repo-docs".to_string());
    map
}

fn command(name: &str, repos: Option<&[&str]>, command: &str) -> OperationalEntry {
    OperationalEntry {
        name: name.to_string(),
        repos: repos.map(texts),
        definition: EntryDefinition::VerificationCommand { command: command.to_string() },
    }
}

fn template(name: &str, errors: &[&str]) -> OperationalEntry {
    OperationalEntry {
        name: name.to_string(),
        repos: None,
        definition: EntryDefinition::WorkflowTemplate { template: "{}".to_string(), errors: texts(errors) },
    }
}

fn ensure(name: &str) -> OperationalEntry {
    OperationalEntry {
        name: name.to_string(),
        repos: None,
        definition: EntryDefinition::Ensure {
            ensure: EnsureEntry {
                driver: None,
                workflow: "quartermaster".to_string(),
                placement: None,
                stance: Some("trusted".to_string()),
                presents_as: None,
            },
        },
    }
}

fn file(path: &str, entry: Result<Option<OperationalEntry>, String>) -> OperationalFile {
    OperationalFile { path: path.to_string(), entry }
}

fn source(files: Vec<OperationalFile>) -> OperationalSource {
    OperationalSource { repository: "repo-app".to_string(), commit: "abc123".to_string(), files }
}

fn collect(files: Vec<OperationalFile>) -> Result<Collected, String> {
    let nothing = Collected { workflows: OrderedMap::new(), commands: vec![], ensures: OrderedMap::new() };
    collect_operational_entries(nothing, "fleet", &aliases(), &texts(&["repo-app"]), &source(files))
}

#[test]
fn an_entry_targets_its_aliases_or_all_code() {
    let all = texts(&["repo-app"]);
    assert_eq!(entry_targets("ops/a.md", &command("test", None, "make"), &aliases(), &all), Ok(texts(&["repo-app"])));
    assert_eq!(entry_targets("ops/a.md", &command("test", Some(&["app"]), "make"), &aliases(), &all), Ok(texts(&["repo-app"])));
    assert_eq!(
        entry_targets("ops/a.md", &command("test", Some(&["web"]), "make"), &aliases(), &all),
        Err("ops/a.md names unknown repository alias `web`".to_string())
    );
    assert_eq!(
        entry_targets("ops/a.md", &command("test", Some(&["docs"]), "make"), &aliases(), &all),
        Err("ops/a.md operational entry `test` targets repository alias `docs` without the code role".to_string())
    );
    assert_eq!(
        entry_targets("ops/a.md", &command("test", None, "make"), &aliases(), &vec![]),
        Err("ops/a.md has no code-role repositories to target".to_string())
    );
}

#[test]
fn entries_are_collected_by_kind() {
    let collected = collect(vec![
        file("ops/a.md", Ok(Some(command("test", None, "make")))),
        file("ops/b.md", Ok(None)),
        file("ops/c.md", Ok(Some(template("quartermaster", &[])))),
        file("ops/d.md", Ok(Some(ensure("quartermaster")))),
    ])
    .expect("entries");
    assert_eq!(collected.commands.len(), 1);
    assert_eq!(collected.commands[0].command, "make");
    assert_eq!(collected.commands[0].source.path, "ops/a.md");
    assert_eq!(collected.workflows.get("quartermaster").map(|entry| entry.targets.clone()), Some(texts(&["repo-app"])));
    assert!(collected.ensures.key(0).starts_with("ensure-"));
    assert_eq!(collected.ensures.value(0).role, "quartermaster");
    assert_eq!(collected.ensures.value(0).ensure.stance, Some("trusted".to_string()));
}

#[test]
fn entries_are_kept_by_name_whatever_file_they_came_from() {
    let collected = collect(vec![
        file("ops/a.md", Ok(Some(template("review", &[])))),
        file("ops/b.md", Ok(Some(template("build", &[])))),
        file("ops/c.md", Ok(Some(template("plan", &[])))),
    ])
    .expect("entries");
    let names = (0..collected.workflows.len()).map(|i| collected.workflows.key(i).clone()).collect::<Vec<_>>();
    assert_eq!(names, texts(&["build", "plan", "review"]));
    assert_eq!(collected.workflows.value(2).source.path, "ops/a.md");
}

#[test]
fn an_ensure_need_not_take_a_stance() {
    let mut entry = ensure("quartermaster");
    if let EntryDefinition::Ensure { ensure } = &mut entry.definition {
        ensure.stance = None;
    }
    let collected = collect(vec![file("ops/a.md", Ok(Some(entry)))]).expect("entries");
    assert_eq!(collected.ensures.value(0).ensure.stance, None);
}

#[test]
fn entries_do_not_compete() {
    assert_eq!(
        collect(vec![file("ops/a.md", Ok(Some(command("test", None, "a")))), file("ops/b.md", Ok(Some(command("test", None, "b"))))])
            .expect_err("a refusal"),
        "duplicate verification command `test` for repository repo-app"
    );
    assert_eq!(
        collect(vec![file("ops/a.md", Ok(Some(template("x", &[])))), file("ops/b.md", Ok(Some(template("x", &[]))))])
            .expect_err("a refusal"),
        "duplicate materialized WorkflowTemplate `x`"
    );
    assert_eq!(
        collect(vec![file("ops/a.md", Ok(Some(ensure("x")))), file("ops/b.md", Ok(Some(ensure("x"))))]).expect_err("a refusal"),
        "duplicate standing convoy role `x` in project `fleet`"
    );
}

#[test]
fn bad_entries_are_refused() {
    assert_eq!(collect(vec![file("ops/a.md", Err("no front matter".to_string()))]).expect_err("a refusal"), "ops/a.md: no front matter");
    let refused = collect(vec![file("ops/a.md", Ok(Some(template("x", &["one", "two"]))))]).expect_err("a refusal");
    assert_eq!(refused, "ops/a.md contains invalid workflow template `x`: one; two");
}

#[test]
fn a_second_source_adds_to_the_first() {
    let first = collect(vec![file("ops/a.md", Ok(Some(command("test", None, "make"))))]).expect("entries");
    let both = collect_operational_entries(
        first,
        "fleet",
        &aliases(),
        &texts(&["repo-app"]),
        &source(vec![file("ops/b.md", Ok(Some(command("lint", None, "make lint"))))]),
    )
    .expect("entries");
    assert_eq!(both.commands.len(), 2);
}

#[test]
fn entries_are_gathered_from_every_operational_member() {
    let members = || vec![
        RefreshMember { repo: "repo-app".to_string(), alias: Some("app".to_string()), code: true },
        RefreshMember { repo: "repo-ops".to_string(), alias: Some("ops".to_string()), code: false },
    ];
    let reading = |repo: &str, paths: &[&str], entries: Option<Result<OperationalSource, String>>| OpsReading {
        repo: repo.to_string(),
        alias: None,
        checkouts: paths.iter().map(|path| LocalCheckout { path: path.to_string(), is_main: false }).collect(),
        entries,
    };
    let step = |ops: Vec<OpsReading>| gather_operational_entries("fleet", &members(), &ops, "repo-boot", "def456");
    let files = || source(vec![file("ops/test.md", Ok(Some(command("test", None, "make"))))]);
    assert!(matches!(
        step(vec![reading("repo-boot", &[], None)]),
        GatherStep::Read { member: 0, source: OpsSource::Bootstrap }
    ));
    assert!(matches!(
        step(vec![reading("repo-boot", &[], Some(Ok(files()))), reading("repo-ops", &["/work/ops"], None)]),
        GatherStep::Read { member: 1, source: OpsSource::Checkout { path } } if path == "/work/ops"
    ));
    assert!(matches!(
        step(vec![reading("repo-boot", &[], Some(Ok(files()))), reading("repo-ops", &[], None)]),
        GatherStep::Nothing
    ));
    assert!(matches!(
        step(vec![reading("repo-ops", &["/a", "/b"], None)]),
        GatherStep::Refuse { message }
            if message == "ops member repo-ops has multiple local checkouts; its main checkout cannot be selected unambiguously"
    ));
    assert!(matches!(
        step(vec![reading("repo-boot", &[], Some(Err("no such commit".to_string())))]),
        GatherStep::Refuse { message } if message == "no such commit"
    ));
    match step(vec![reading("repo-boot", &[], Some(Ok(files())))]) {
        GatherStep::Collected { collected } => {
            assert_eq!(collected.commands.len(), 1);
            assert_eq!(collected.commands[0].repository, "repo-app");
            assert_eq!(collected.commands[0].source.repository, "repo-boot");
            assert_eq!(collected.commands[0].source.commit, "def456");
        }
        other => panic!("{other:?}"),
    }
}
