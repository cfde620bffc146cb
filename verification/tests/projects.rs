use flotilla_core::materialize::LocalCheckout;
use flotilla_core::ordered::{OrderedMap, OrderedSet};
use flotilla_core::projects::{
    declaration_changes, declared_member_step, materializes_here, project_refresh_check, project_refresh_source, project_register_path, project_snapshots,
    registered_members, snapshot_project_repositories, with_provenance, MemberReading, MemberStep, ProjectMember, RegisteredReading,
    RepositoryReading, RepositorySnapshot,
};
use flotilla_core::whole_repository::{
    declared_project_spec, dispose_of_repository, duplicate_project, generated_project_names, identity_change, is_whole_repository_project, migratable_keys,
    migrate_project, next_project_name, obsolete_mirror, primary_project, project_add_name, project_add_path, project_add_step,
    project_add_target, reconcile_whole_repository_project_definition, superseded_keys, whole_repository_project_names,
    whole_repository_project_spec, AddStep, CatalogMatch, CreateReply, DeclaredMember, DefinitionStep, IdentityChange, KnownRepository,
    ListedProject, NameStep, OldRepository, PathKey, ProjectRecord,
};

fn texts(items: &[&str]) -> Vec<String> {
    items.iter().map(|item| item.to_string()).collect()
}

fn map(entries: &[(&str, &str)]) -> OrderedMap<String> {
    let mut map = OrderedMap::new();
    for (key, value) in entries {
        map.insert(key.to_string(), value.to_string());
    }
    map
}

fn member(repo: &str, branch: Option<&str>, subpath: Option<&str>) -> ProjectMember {
    ProjectMember {
        repo: repo.to_string(),
        code: true,
        default_branch: branch.map(str::to_string),
        subpath: subpath.map(str::to_string),
        reading: Ok(RepositoryReading { key_error: None, url: Some(format!("https://{repo}")), default_branch: Some("trunk".to_string()) }),
    }
}

fn record(name: &str, generated: bool, key: &str) -> ProjectRecord {
    ProjectRecord { name: name.to_string(), declared: false, generated, definition: whole_repository_project_spec(key, name) }
}

fn known(key: &str, declared: bool, same_checkout: bool) -> KnownRepository {
    KnownRepository {
        key: key.to_string(),
        leaf_slug: "app".to_string(),
        catalog_slug: "acme/app".to_string(),
        declared,
        same_checkout,
        has_remotes: true,
        display: format!("{key} display"),
    }
}

fn path(key: &str, here: bool) -> PathKey {
    PathKey { here, key: key.to_string() }
}

#[test]
fn members_become_repository_snapshots() {
    let snapshots = project_snapshots(
        "fleet",
        &vec![member("repo-b", None, None), member("repo-a", Some("main"), Some("web")), member("repo-a", Some("main"), Some("api"))],
    )
    .expect("snapshots");
    assert_eq!(
        snapshots,
        vec![
            RepositorySnapshot {
                repo_ref: "repo-a".to_string(),
                url: "https://repo-a".to_string(),
                branch: "main".to_string(),
                subpaths: texts(&["api", "web"]),
            },
            RepositorySnapshot {
                repo_ref: "repo-b".to_string(),
                url: "https://repo-b".to_string(),
                branch: "trunk".to_string(),
                subpaths: vec![],
            },
        ]
    );
    let repositories = snapshot_project_repositories(&snapshots, &texts(&["a", "b"]));
    assert_eq!(repositories[0].source_ref, "main");
    assert_eq!(repositories[0].workspace_slug, "a");
    assert_eq!(repositories[0].copy(), repositories[0]);
}

#[test]
fn a_project_that_is_not_ready_lists_every_reason() {
    let mut silent = member("repo-c", None, None);
    silent.reading = Ok(RepositoryReading { key_error: None, url: None, default_branch: None });
    let mut gone = member("repo-d", None, None);
    gone.reading = Err("not found".to_string());
    let mut branchless = member("repo-e", None, None);
    branchless.reading = Ok(RepositoryReading { key_error: None, url: Some("https://e".to_string()), default_branch: None });
    assert_eq!(
        project_snapshots(
            "fleet",
            &vec![member("repo-a", Some("main"), None), member("repo-a", Some("next"), None), silent, gone, branchless]
        ),
        Err("project fleet is not ready: repository repo-a has conflicting project default branches; repository repo-c has no transport \
             remote; repository repo-d: not found; repository repo-e has no resolved default branch"
            .to_string())
    );
}

#[test]
fn a_bootstrap_target_is_a_path_or_a_slug() {
    let checkout = |path: &str, is_main: bool| LocalCheckout { path: path.to_string(), is_main };
    assert_eq!(project_register_path("./ops", true, 0, &vec![]), Ok("./ops".to_string()));
    assert_eq!(project_register_path("ops", false, 1, &vec![checkout("/work/ops", false)]), Ok("/work/ops".to_string()));
    assert_eq!(
        project_register_path("ops", false, 0, &vec![]),
        Err("`ops` is neither a bootstrap repository path nor a repository catalog slug".to_string())
    );
    assert_eq!(project_register_path("ops", false, 2, &vec![]), Err("bootstrap repository slug `ops` is ambiguous".to_string()));
    assert_eq!(
        project_register_path("ops", false, 1, &vec![]),
        Err("bootstrap repository `ops` has no local checkout on this host".to_string())
    );
    assert_eq!(
        project_register_path("ops", false, 1, &vec![checkout("/a", false), checkout("/b", false)]),
        Err("bootstrap repository `ops` has multiple local checkouts; pass the intended checkout path explicitly".to_string())
    );
}

#[test]
fn a_refresh_reads_the_declaration_again() {
    assert_eq!(project_refresh_source("fleet", &Some("/work/ops".to_string())), Ok("/work/ops".to_string()));
    assert_eq!(project_refresh_source("fleet", &None), Err("project fleet was registered without a declaration".to_string()));
    assert_eq!(project_refresh_check("fleet", "flotilla.yaml", "fleet"), Ok(()));
    assert_eq!(
        project_refresh_check("fleet", "flotilla.yaml", "other"),
        Err("flotilla.yaml now declares project `other` instead of `fleet`".to_string())
    );
}

#[test]
fn provenance_is_written_once() {
    let base = map(&[("kept", "1"), ("changed", "old")]);
    let over = map(&[("changed", "new"), ("added", "2")]);
    let (first, changed) = with_provenance(&base, &over);
    assert!(changed);
    assert_eq!(first, map(&[("added", "2"), ("changed", "new"), ("kept", "1")]));
    let (second, again) = with_provenance(&first, &over);
    assert!(!again);
    assert_eq!(second, first);
}

#[test]
fn a_declared_member_keeps_its_repository() {
    let aliases = map(&[("app", "repo-old")]);
    let mut reading = MemberReading { repository: None, marked: None, verified: None };
    let old = || "repo-old".to_string();
    let step = |reading: &MemberReading| declared_member_step("app", &aliases, "repo-new", reading);
    assert_eq!(step(&reading), MemberStep::Get { key: old() });
    assert_eq!(declared_member_step("web", &aliases, "repo-new", &reading), MemberStep::Ensure { key: "repo-new".to_string() });
    reading.repository = Some(Err("gone".to_string()));
    assert_eq!(
        step(&reading),
        MemberStep::Refuse { message: "project member alias `app` refers to unavailable repository repo-old: gone".to_string() }
    );
    assert_eq!(declared_member_step("web", &aliases, "repo-new", &reading), MemberStep::Refuse { message: "gone".to_string() });
    reading.repository = Some(Ok(()));
    assert_eq!(step(&reading), MemberStep::Mark { key: old() });
    reading.marked = Some(Ok(()));
    assert_eq!(step(&reading), MemberStep::Verify { key: old() });
    reading.verified = Some(Err("no remote".to_string()));
    assert_eq!(
        step(&reading),
        MemberStep::Refuse { message: "project member alias `app` resolved to invalid repository repo-old: no remote".to_string() }
    );
    reading.verified = Some(Ok(()));
    assert_eq!(step(&reading), MemberStep::Settled { key: old() });
    assert_eq!(declaration_changes("fleet", false, true, true, true), texts(&[]));
    assert_eq!(declaration_changes("fleet", false, false, true, true), texts(&["Project/fleet"]));
}

#[test]
fn a_repository_has_a_project_of_its_own() {
    let spec = whole_repository_project_spec("repo-a", "app");
    assert_eq!(spec.default_workflow_ref, "single-agent-trusted");
    assert!(is_whole_repository_project(&spec.repositories, "repo-a"));
    assert!(!is_whole_repository_project(&spec.repositories, "repo-b"));
    assert_eq!(
        whole_repository_project_names("App", "acme/app", "0123456789"),
        Ok(texts(&["app", "acme-app", "acme-app-01234567"]))
    );
    assert_eq!(
        whole_repository_project_names("!", "acme/app", "key"),
        Err("project name must contain an alphanumeric character".to_string())
    );
}

#[test]
fn an_added_project_names_a_path_or_a_slug() {
    assert_eq!(project_add_path("./app", true), Ok(true));
    assert_eq!(project_add_path("./app", false), Err("repository path ./app does not exist".to_string()));
    let found = |key: &str| CatalogMatch { key: key.to_string(), key_error: None };
    assert_eq!(project_add_target("app", &None, &vec![found("repo-a")], false), Ok(("repo-a".to_string(), false)));
    assert_eq!(
        project_add_target("app", &None, &vec![found("repo-a"), found("repo-b")], false),
        Err("repository slug `app` is ambiguous: repo-a, repo-b".to_string())
    );
    assert_eq!(
        project_add_target("app", &Some("repo-x".to_string()), &vec![found("repo-a")], false),
        Err("`app` resolves to different path and catalog repositories: repo-x and repo-a".to_string())
    );
    assert_eq!(
        project_add_target("app", &None, &vec![], false),
        Err("`app` is neither a repository path nor a repository catalog slug".to_string())
    );
    assert_eq!(
        project_add_target("app", &None, &vec![found("repo-a")], true),
        Err("--remote can only select identity while inspecting a local repository path".to_string())
    );
    assert_eq!(project_add_name("My App", &None), Ok(("my-app".to_string(), "my-app".to_string())));
    assert_eq!(project_add_name("My App", &Some("x".to_string())), Ok(("x".to_string(), "my-app".to_string())));
}

#[test]
fn an_existing_project_is_reused_only_as_it_is() {
    assert_eq!(project_add_step("app", "repo-a", &None, &None), Ok(AddStep::Create));
    assert_eq!(
        project_add_step("app", "repo-a", &None, &Some(record("app", false, "repo-a"))),
        Ok(AddStep::Reuse { step: reconcile_whole_repository_project_definition(&record("app", false, "repo-a")) })
    );
    assert_eq!(
        project_add_step("app", "repo-b", &None, &Some(record("app", true, "repo-a"))),
        Err("project app already exists with a different repository definition".to_string())
    );
    let mut declared = record("app", true, "repo-a");
    declared.declared = true;
    assert_eq!(
        project_add_step("app", "repo-a", &None, &Some(declared)),
        Err("project app is managed by a declaration; use project refresh to update it".to_string())
    );
    assert_eq!(
        project_add_step("app", "repo-a", &Some("Other".to_string()), &Some(record("app", true, "repo-a"))),
        Err("project app already exists with display name `app`; use project apply to change it".to_string())
    );
    assert_eq!(reconcile_whole_repository_project_definition(&record("app", true, "repo-a")), DefinitionStep::Keep);
}

#[test]
fn a_repository_supersedes_what_it_was_known_as() {
    let known = vec![known("repo-old", true, false), known("repo-new", true, false), known("repo-other", false, false)];
    let keys = superseded_keys("repo-new", &known, &vec![path("repo-local", true), path("repo-else", false)], &vec![]);
    assert_eq!(keys.to_vec(), texts(&["repo-local", "repo-old"]));
    let elsewhere = vec![path("repo-local", true), path("repo-local", false)];
    assert_eq!(migratable_keys("repo-new", &known, &elsewhere, &vec![]).to_vec(), texts(&["repo-old"]));
}

#[test]
fn generated_projects_move_with_their_repository() {
    let migrating = OrderedSet::from_strs(&texts(&["repo-old"]));
    let known = vec![known("repo-old", true, false)];
    let g = generated_project_names("app", "acme/app", "repo-new", &known, &migrating).expect("names");
    assert!(g.names.contains("app"));
    let moved = migrate_project(&record("app", true, "repo-old"), "repo-new", &migrating).expect("a definition");
    assert_eq!(moved[0].repo, "repo-new");
    assert_eq!(migrate_project(&record("app", true, "repo-x"), "repo-new", &migrating), None);
    assert!(!obsolete_mirror(&record("elsewhere", true, "repo-x"), &g, &migrating, &known));
    let spec = whole_repository_project_spec("repo-new", "app");
    assert!(!duplicate_project(&record("app", true, "repo-new"), "app", &g, &spec));
}

#[test]
fn the_project_of_a_repository_is_the_migrated_one() {
    let listed = |name: &str, migrated: bool| ListedProject { record: record(name, true, "repo-a"), migrated };
    assert_eq!(primary_project(&vec![listed("b", false), listed("a", false), listed("c", true)], "repo-a", &OrderedSet::new()), Some(2));
    assert_eq!(primary_project(&vec![listed("b", false), listed("a", false)], "repo-a", &OrderedSet::new()), Some(1));
    assert_eq!(primary_project(&vec![listed("b", false)], "repo-z", &OrderedSet::new()), None);
}

#[test]
fn a_repository_in_use_stays() {
    assert_eq!(dispose_of_repository(&vec![record("app", true, "repo-old")], &vec![], "repo-old"), OldRepository::Leave);
    assert_eq!(dispose_of_repository(&vec![], &texts(&["repo-old"]), "repo-old"), OldRepository::Supersede);
    assert_eq!(dispose_of_repository(&vec![], &vec![], "repo-old"), OldRepository::Delete);
}

#[test]
fn a_changed_identity_is_reported() {
    let known = vec![known("repo-old", false, true)];
    let superseded = OrderedSet::from_strs(&texts(&["repo-old"]));
    assert_eq!(
        identity_change(&known, &Some("repo-old".to_string()), &superseded, "now"),
        Some(IdentityChange { previous_display: "repo-old display".to_string(), current_display: "now".to_string() })
    );
    assert_eq!(identity_change(&vec![], &None, &OrderedSet::new(), "now"), None);
}

#[test]
fn a_project_name_is_tried_until_one_is_free() {
    assert_eq!(next_project_name("repo-a", 2, &vec![]), NameStep::Try { candidate: 0 });
    assert_eq!(next_project_name("repo-a", 2, &vec![CreateReply::Taken { whole: false }]), NameStep::Try { candidate: 1 });
    assert_eq!(next_project_name("repo-a", 2, &vec![CreateReply::Taken { whole: true }]), NameStep::Reuse { candidate: 0 });
    assert_eq!(next_project_name("repo-a", 2, &vec![CreateReply::Created]), NameStep::Created);
    assert_eq!(
        next_project_name("repo-a", 1, &vec![CreateReply::Taken { whole: false }]),
        NameStep::Fail { message: "could not allocate a deterministic Project name for repository repo-a".to_string() }
    );
    assert_eq!(
        next_project_name("repo-a", 1, &vec![CreateReply::Failed { message: "down".to_string() }]),
        NameStep::Fail { message: "down".to_string() }
    );
}

#[test]
fn a_project_is_registered_at_its_home() {
    assert!(materializes_here(false, false));
    assert!(materializes_here(true, true));
    assert!(!materializes_here(true, false));
    assert_eq!(registered_members("fleet", &RegisteredReading::Found { members: 3 }), Ok(3));
    assert_eq!(
        registered_members("fleet", &RegisteredReading::Missing),
        Err("project fleet is homed by another root; register it at its home".to_string())
    );
    assert_eq!(registered_members("fleet", &RegisteredReading::Failed { error: "down".to_string() }), Err("down".to_string()));
}

#[test]
fn a_declared_project_has_its_members_in_order() {
    let member = |repo: &str, alias: &str, roles: &[&str]| DeclaredMember {
        repo: repo.to_string(),
        alias: alias.to_string(),
        roles: roles.iter().map(|role| role.to_string()).collect(),
    };
    let project = declared_project_spec("fleet", &vec![member("repo-b", "ops", &["ops"]), member("repo-a", "app", &["code", "ops"])]);
    assert_eq!(project.display_name, "fleet");
    assert_eq!(project.default_workflow_ref, "single-agent-trusted");
    assert_eq!(project.issue_source, None);
    assert_eq!(project.repositories.iter().map(|r| r.repo.as_str()).collect::<Vec<_>>(), vec!["repo-b", "repo-a"]);
    assert_eq!(project.repositories[1].alias, Some("app".to_string()));
    assert_eq!(project.repositories[1].roles, vec!["code".to_string(), "ops".to_string()]);
    assert_eq!(project.repositories[0].subpath, None);
}
