use flotilla_core::change_requests::{
    admission_candidates, check_issue_source, issue_by_id, live_candidates, repository_of_issue, resolve_convoy_change_request,
    resolve_convoy_change_request_admission, DescribedRequest, ForgedRepository, IssueSource, LiveRoot, RequestCandidate, ResolvedRequest,
    RootReading,
};
use flotilla_core::repos::{
    add_repo_step, configured_repo_identity, empty_repo_identity, fallback_repo_identity, normalize_repo_path, refresh_step,
    repository_action_policy_error, resolve_checkout_selector, resolve_repo_for_command, resolve_repo_selector, startup_repositories,
    AddRepoStep, AddedRepo, CheckoutReading, CheckoutSelector, RefreshStep, RepoIdentity, RepoLookup, RepoNeed, RepoRegistry, RepoSelector,
    StanceReading, StartupRepo, Untracked, VirtualStep,
};

fn texts(items: &[&str]) -> Vec<String> {
    items.iter().map(|item| item.to_string()).collect()
}

fn text(value: &str) -> Option<String> {
    Some(value.to_string())
}

fn identity(path: &str) -> RepoIdentity {
    RepoIdentity { authority: "github.com".to_string(), path: path.to_string() }
}

#[test]
fn identities_fall_back_to_the_path() {
    assert_eq!(fallback_repo_identity("/work/app"), RepoIdentity { authority: "local".to_string(), path: "/work/app".to_string() });
    assert_eq!(empty_repo_identity(), RepoIdentity { authority: String::new(), path: String::new() });
    assert_eq!(configured_repo_identity(&Some(identity("a")), &Some(identity("b")), "/work/app"), identity("a"));
    assert_eq!(configured_repo_identity(&None, &Some(identity("b")), "/work/app"), identity("b"));
    assert_eq!(configured_repo_identity(&None, &None, "/work/app"), fallback_repo_identity("/work/app"));
    assert!(identity("a").same(&identity("a").copy()));
    assert!(!identity("a").same(&identity("b")));
}

#[test]
fn following_a_repository_twice_changes_nothing() {
    let mut registry = RepoRegistry::new();
    assert!(registry.track("/work/app", &identity("acme/app"), &text("repo-a")));
    assert!(!registry.track("/work/app", &identity("acme/app"), &text("repo-a")));
    assert_eq!(registry.len(), 1);
    assert_eq!(registry.repo(0).roots.len(), 1);
    assert_eq!(registry.tracked_repo_identity_for_path("/work/app"), Some(identity("acme/app")));
    assert_eq!(registry.repository_key_for_path("/work/app"), text("repo-a"));
    assert_eq!(registry.position(&identity("acme/app")), Some(0));
}

#[test]
fn every_local_path_is_listed() {
    let mut registry = RepoRegistry::new();
    registry.track("/work/app", &identity("acme/app"), &None);
    registry.track("/work/docs", &identity("acme/docs"), &None);
    registry.track("/work/app-2", &identity("acme/app"), &None);
    registry.add_virtual_repo(&identity("acme/remote"), &None, "virtual:remote", "virtual:remote");
    assert_eq!(registry.tracked_repo_paths(), texts(&["/work/app", "/work/app-2", "/work/docs"]));
    assert_eq!(RepoRegistry::new().tracked_repo_paths(), texts(&[]));
}

#[test]
fn letting_go_undoes_following() {
    let mut registry = RepoRegistry::new();
    registry.track("/work/app", &identity("acme/app"), &None);
    registry.track("/work/app-2", &identity("acme/app"), &None);
    assert_eq!(registry.remove_repo("/work/app-2"), Ok(Untracked { removed_identity: false, removed_final_local_root: false }));
    assert_eq!(registry.len(), 1);
    assert_eq!(registry.remove_repo("/work/app"), Ok(Untracked { removed_identity: true, removed_final_local_root: true }));
    assert_eq!(registry.len(), 0);
    assert_eq!(registry.tracked_repo_identity_for_path("/work/app"), None);
    assert_eq!(registry.remove_repo("/work/app"), Err("repo not tracked: /work/app".to_string()));
}

#[test]
fn a_repository_of_another_host_is_added_once() {
    let mut registry = RepoRegistry::new();
    assert_eq!(registry.add_virtual_repo(&identity("acme/app"), &None, "virtual:app", "virtual:app"), VirtualStep::Added);
    assert_eq!(
        registry.add_virtual_repo(&identity("acme/app"), &text("repo-a"), "virtual:app", "virtual:app"),
        VirtualStep::Existing { key_became_available: true }
    );
    assert_eq!(
        registry.add_virtual_repo(&identity("acme/app"), &text("repo-a"), "virtual:app", "virtual:app"),
        VirtualStep::Existing { key_became_available: false }
    );
    assert!(!registry.repo(0).roots[0].is_local);
}

#[test]
fn repositories_are_followed_from_the_start() {
    let registry = startup_repositories(&vec![
        StartupRepo { path: "/work/app".to_string(), identity: identity("acme/app"), key: text("repo-a") },
        StartupRepo { path: "/work/app-2".to_string(), identity: identity("acme/app"), key: None },
    ]);
    assert_eq!(registry.len(), 1);
    assert_eq!(registry.repo(0).roots.len(), 2);
}

#[test]
fn a_repository_is_found_by_path_query_or_identity() {
    let mut registry = RepoRegistry::new();
    registry.track("/work/app", &identity("acme/app"), &None);
    let by_path = |path: &str| RepoSelector::Path { path: path.to_string() };
    assert_eq!(resolve_repo_selector(&registry, &by_path("/work/app")), Ok("/work/app".to_string()));
    assert_eq!(resolve_repo_selector(&registry, &by_path("/work/x")), Err("repo not tracked: /work/x".to_string()));
    assert_eq!(resolve_repo_selector(&registry, &RepoSelector::Query { resolved: Err("none".to_string()) }), Err("none".to_string()));
    assert_eq!(
        resolve_repo_selector(&registry, &RepoSelector::Identity { shown: "acme/app".to_string(), preferred: None }),
        Err("repo not tracked: acme/app".to_string())
    );
    assert_eq!(
        resolve_repo_selector(&registry, &RepoSelector::Identity { shown: "acme/app".to_string(), preferred: text("/work/app") }),
        Ok("/work/app".to_string())
    );
}

#[test]
fn a_checkout_is_found_by_path_or_branch() {
    let checkout = |path: &str, branch: &str| CheckoutReading {
        repo: "/work/app".to_string(),
        path: path.to_string(),
        branch: branch.to_string(),
        in_scope: true,
    };
    let checkouts = vec![checkout("/work/app", "main"), checkout("/work/app-2", "feature")];
    assert_eq!(
        resolve_checkout_selector(&checkouts, &CheckoutSelector::Path { path: "/work/app-2".to_string() }),
        Ok(("/work/app".to_string(), "feature".to_string()))
    );
    assert_eq!(
        resolve_checkout_selector(&checkouts, &CheckoutSelector::Query { query: "feature".to_string() }),
        Ok(("/work/app".to_string(), "feature".to_string()))
    );
    assert_eq!(
        resolve_checkout_selector(&checkouts, &CheckoutSelector::Query { query: "gone".to_string() }),
        Err("checkout not found".to_string())
    );
    assert_eq!(
        resolve_checkout_selector(
            &vec![checkout("/a", "main"), checkout("/b", "main")],
            &CheckoutSelector::Query { query: "main".to_string() }
        ),
        Err("checkout selector is ambiguous".to_string())
    );
}

#[test]
fn commands_say_which_repository_they_need() {
    assert_eq!(resolve_repo_for_command(RepoNeed::Named, false), Ok(RepoLookup::Command));
    assert_eq!(resolve_repo_for_command(RepoNeed::ContextOrCheckout, true), Ok(RepoLookup::Context));
    assert_eq!(resolve_repo_for_command(RepoNeed::ContextOrCheckout, false), Ok(RepoLookup::Checkout));
    assert_eq!(resolve_repo_for_command(RepoNeed::Context, false), Err("command requires repo context".to_string()));
    assert_eq!(resolve_repo_for_command(RepoNeed::NoSingle, true), Err("command does not resolve to a single repo".to_string()));
}

#[test]
fn forks_are_landed_by_hand() {
    assert_eq!(repository_action_policy_error("7", &StanceReading::Known { is_fork: false }), None);
    assert_eq!(
        repository_action_policy_error("7", &StanceReading::Known { is_fork: true }),
        text("merging change request 7 is forbidden for fork-stance repository; landing is human-only")
    );
    assert_eq!(
        repository_action_policy_error("7", &StanceReading::KeyUnknown),
        text("cannot determine whether merging change request 7 is permitted: repository policy is unavailable")
    );
    assert_eq!(
        repository_action_policy_error("7", &StanceReading::Unreadable { error: "down".to_string() }),
        text("cannot determine whether merging change request 7 is permitted: repository policy is unavailable: down")
    );
}

#[test]
fn a_path_inside_a_repository_leads_to_its_root() {
    assert_eq!(normalize_repo_path(&text("/work/app"), "/work/app/src", "app/src"), ("/work/app".to_string(), text("app/src")));
    assert_eq!(normalize_repo_path(&text("/work/app"), "/work/app", "app"), ("/work/app".to_string(), None));
    assert_eq!(normalize_repo_path(&None, "/work/x", "x"), ("x".to_string(), None));
}

#[test]
fn a_path_that_changed_identity_moves() {
    let mut registry = RepoRegistry::new();
    assert_eq!(add_repo_step(&registry, "/work/app", &identity("acme/app")), AddRepoStep::Insert);
    registry.track("/work/app", &identity("acme/app"), &text("repo-a"));
    assert_eq!(add_repo_step(&registry, "/work/app", &identity("acme/app")), AddRepoStep::Keep);
    assert_eq!(add_repo_step(&registry, "/work/app", &identity("acme/moved")), AddRepoStep::Migrate);
    assert_eq!(refresh_step(&registry, "/work/app", &None), RefreshStep::Unavailable);
    assert_eq!(refresh_step(&registry, "/work/app", &text("repo-a")), RefreshStep::Configure);
    assert_eq!(refresh_step(&registry, "/work/app", &text("repo-b")), RefreshStep::Reconcile);
    assert!(registry.set_repository_key("/work/app", "repo-b"));
    assert!(!registry.set_repository_key("/work/app", "repo-b"));
}

fn described(id: &str, base_ref: Option<&str>) -> Result<DescribedRequest, String> {
    Ok(DescribedRequest {
        id: id.to_string(),
        title: "Title".to_string(),
        branch: "feature".to_string(),
        base_ref: base_ref.map(str::to_string),
    })
}

#[test]
fn a_change_request_is_found_in_one_repository() {
    let candidate = |repository: &str, replies: Vec<Result<DescribedRequest, String>>| RequestCandidate {
        repository: repository.to_string(),
        replies,
    };
    assert_eq!(
        resolve_convoy_change_request_admission(
            "7",
            &vec![
                candidate("repo-a", vec![Err("not found".to_string())]),
                candidate("repo-b", vec![described("7", None), described("7", Some("main"))]),
            ]
        ),
        Ok(ResolvedRequest {
            id: "7".to_string(),
            repository_ref: "repo-b".to_string(),
            title: "Title".to_string(),
            branch: "feature".to_string(),
            base_ref: "main".to_string(),
        })
    );
    assert_eq!(
        resolve_convoy_change_request_admission(
            "7",
            &vec![candidate("repo-a", vec![Err("not found".to_string())]), candidate("repo-b", vec![described("7", None)])]
        ),
        Err("change request 7 was not found in project repositories: repository repo-a: not found; repository repo-b: change request 7 did \
             not report a base ref"
            .to_string())
    );
    assert_eq!(
        resolve_convoy_change_request_admission("7", &vec![]),
        Err("change request 7 was not found in project repositories".to_string())
    );
    assert_eq!(
        resolve_convoy_change_request_admission(
            "7",
            &vec![candidate("repo-a", vec![described("7", Some("main"))]), candidate("repo-b", vec![described("7", Some("main"))])]
        ),
        Err("change request 7 is ambiguous across 2 project repositories".to_string())
    );
}

#[test]
fn change_requests_are_asked_for_where_there_are_providers() {
    let root = |key: Option<&str>, has_providers: bool| RootReading { key: key.map(str::to_string), has_providers };
    let roots = vec![root(Some("repo-a"), false), root(Some("repo-a"), true), root(Some("repo-x"), true), root(None, true)];
    assert_eq!(admission_candidates(&roots, &texts(&["repo-a"])), vec![1]);
    let places = live_candidates(
        &vec![vec![root(Some("repo-b"), true)], vec![root(Some("repo-a"), true)]],
        &texts(&["repo-a", "repo-b", "repo-a"]),
    );
    assert_eq!(places, vec![LiveRoot { key: 0, repo: 1, root: 0 }, LiveRoot { key: 1, repo: 0, root: 0 }]);
}

#[test]
fn a_found_change_request_outweighs_errors() {
    assert_eq!(resolve_convoy_change_request(&vec![Err("down".to_string()), Ok(None), Ok(text("7"))]), Ok(Some(2)));
    assert_eq!(resolve_convoy_change_request(&vec![Ok(None), Err("down".to_string())]), Err("down".to_string()));
    assert_eq!(resolve_convoy_change_request(&vec![Ok(None)]), Ok(None));
}

#[test]
fn issues_come_from_the_sources_of_a_project() {
    let source = |scope: &str| IssueSource { service: "github".to_string(), scope: scope.to_string() };
    assert_eq!(check_issue_source(&vec![source("acme/app")], &source("acme/app"), "fleet"), Ok(()));
    assert_eq!(
        check_issue_source(&vec![source("acme/app")], &source("acme/x"), "fleet"),
        Err("issue source github acme/x is not part of project fleet".to_string())
    );
    assert_eq!(issue_by_id("7", "fleet", &vec![Err("none".to_string()), Ok(())]), Ok(1));
    assert_eq!(
        issue_by_id("7", "fleet", &vec![Err("none".to_string()), Err("gone".to_string())]),
        Err("issue 7 was not found for project fleet: none; gone".to_string())
    );
    assert_eq!(issue_by_id("7", "fleet", &vec![Ok(()), Ok(())]), Err("issue 7 is ambiguous across 2 project issue sources".to_string()));
    let repositories = vec![
        ForgedRepository { repo: "repo-a".to_string(), forge: None },
        ForgedRepository { repo: "repo-b".to_string(), forge: Some(source("acme/app")) },
    ];
    assert_eq!(repository_of_issue(&repositories, &source("acme/app")), text("repo-b"));
    assert_eq!(repository_of_issue(&repositories, &source("acme/x")), None);
}

#[test]
fn a_path_moves_to_the_repository_it_is_added_as() {
    let mut registry = RepoRegistry::new();
    assert_eq!(registry.add_repo("/work/app", &identity("acme/app"), "repo-a"), AddedRepo::Added { new_identity: true });
    assert_eq!(registry.add_repo("/work/app", &identity("acme/app"), "repo-a"), AddedRepo::Kept { key_changed: false });
    assert_eq!(registry.add_repo("/work/app", &identity("acme/app"), "repo-b"), AddedRepo::Kept { key_changed: true });
    assert_eq!(registry.add_repo("/work/app", &identity("acme/other"), "repo-c"), AddedRepo::Moved { new_identity: true });
    assert_eq!(registry.len(), 1);
    assert_eq!(registry.tracked_repo_identity_for_path("/work/app"), Some(identity("acme/other")));
    assert_eq!(registry.repository_key_for_path("/work/app"), text("repo-c"));
}
