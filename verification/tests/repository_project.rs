use flotilla_core::ordered::OrderedSet;
use flotilla_core::repository_project::{
    local_repository_matches_checkout, plan_disposal, plan_migration, plan_primary, repository_identity_display, InspectedRepository,
    RepositoryIdentity,
};
use flotilla_core::whole_repository::{
    whole_repository_project_spec, DefinedRepository, DefinitionStep, KnownRepository, ListedProject, OldRepository, PathKey, ProjectRecord,
};

fn record(name: &str, generated: bool, key: &str) -> ProjectRecord {
    ProjectRecord { name: name.to_string(), declared: false, generated, definition: whole_repository_project_spec(key, name) }
}

fn repository() -> InspectedRepository {
    let known = KnownRepository {
        key: "repo-old".to_string(),
        leaf_slug: "app".to_string(),
        catalog_slug: "acme/app".to_string(),
        declared: false,
        same_checkout: true,
        has_remotes: false,
        display: "local".to_string(),
    };
    InspectedRepository {
        key: "repo-new".to_string(),
        leaf_slug: "app".to_string(),
        catalog_slug: "acme/app".to_string(),
        known: vec![known],
        paths: vec![PathKey { here: true, key: "repo-old".to_string() }],
        observed: vec![],
    }
}

#[test]
fn projects_move_with_their_repository() {
    let mut curated = record("curated", false, "repo-old");
    curated.definition.repositories.push(DefinedRepository {
        repo: "repo-else".to_string(),
        ..whole_repository_project_spec("repo-else", "x").repositories.remove(0)
    });
    let plan = plan_migration(&repository(), &vec![record("other", false, "repo-else"), curated]).expect("a plan");
    assert!(plan.migrating.contains("repo-old"));
    assert!(plan.obsolete.is_empty());
    assert_eq!(plan.moved.len(), 1);
    assert_eq!(plan.moved[0].at, 1);
    assert!(plan.moved[0].repositories.iter().all(|member| member.repo != "repo-old"));
    assert!(plan.moved[0].repositories.iter().any(|member| member.repo == "repo-new"));
}

#[test]
fn one_project_stands_for_a_repository() {
    let plan = plan_migration(&repository(), &vec![]).expect("a plan");
    let listed = |name: &str, generated: bool| ListedProject { record: record(name, generated, "repo-new"), migrated: false };
    let spec = whole_repository_project_spec("repo-new", "app");
    let primary = plan_primary("repo-new", &vec![listed("acme-app", true), listed("app", false)], &plan.names, &spec);
    assert!(primary.primary.is_some());
    assert!(!primary.duplicates.contains(&primary.primary.expect("one")));
    let none = plan_primary("repo-none", &vec![listed("app", true)], &plan.names, &spec);
    assert_eq!(none.primary, None);
    assert_eq!(none.step, DefinitionStep::Keep);
    assert!(none.duplicates.is_empty());
}

#[test]
fn repositories_that_were_left_are_disposed_of() {
    let left = OrderedSet::from_strs(&vec!["repo-a".to_string(), "repo-b".to_string(), "repo-c".to_string()]);
    assert_eq!(
        plan_disposal(&left, &vec![record("app", false, "repo-a")], &vec!["repo-b".to_string()]),
        vec![OldRepository::Leave, OldRepository::Supersede, OldRepository::Delete]
    );
}

#[test]
fn a_local_repository_is_known_by_its_checkout() {
    let remote = RepositoryIdentity::Remote { canonical_remote: "https://host/app".to_string() };
    let local = RepositoryIdentity::Local { host_ref: "host-1".to_string(), common_parent: Some("/work/app".to_string()) };
    assert_eq!(repository_identity_display(&remote), "https://host/app");
    assert_eq!(repository_identity_display(&local), "local");
    assert!(local_repository_matches_checkout(&local, "host-1", "/work/app"));
    assert!(!local_repository_matches_checkout(&local, "host-2", "/work/app"));
    assert!(!local_repository_matches_checkout(&remote, "host-1", "/work/app"));
}
